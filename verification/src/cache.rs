//! The per-context shadow cache: a memo table keyed by surface identity.
//!
//! Every call first purges entries whose key is no longer alive, then
//! either returns the stored elements (same key, equal parameters) or
//! rebuilds, stores and returns a fresh element list. Liveness is supplied
//! by the caller as the list of keys still alive, since surface identity
//! and liveness live outside this crate.

use vstd::prelude::*;

use crate::element::{build_elements, elements_match, DrawableElement, Frac};
use crate::geometry::{compute_geometry, geometry_matches, ShadowGeometry};
use crate::params::ShadowParameters;
use crate::snap::Scale;

verus! {

/// One cache row: the parameters that produced the stored elements.
pub struct CacheEntry {
    /// The surface key the row belongs to.
    pub key: u64,
    /// The parameters the stored elements were built from.
    pub params: ShadowParameters,
    /// The elements built for those parameters.
    pub elements: Vec<DrawableElement>,
}

/// No two rows share a key.
pub open spec fn keys_unique(s: Seq<CacheEntry>) -> bool {
    forall|i: int, j: int|
        #![trigger s[i], s[j]]
        0 <= i < j < s.len() ==> s[i].key != s[j].key
}

/// Is there a row for the key?
pub open spec fn has_key(s: Seq<CacheEntry>, k: u64) -> bool {
    exists|i: int| 0 <= i < s.len() && (#[trigger] s[i]).key == k
}

/// The index of the row for the key.
pub open spec fn key_index(s: Seq<CacheEntry>, k: u64) -> int {
    choose|i: int| 0 <= i < s.len() && (#[trigger] s[i]).key == k
}

/// The row for the key.
pub open spec fn entry_of(s: Seq<CacheEntry>, k: u64) -> CacheEntry
    recommends
        has_key(s, k),
{
    s[key_index(s, k)]
}

/// With unique keys, the row found at any index is the row of its key.
pub proof fn lemma_key_index(s: Seq<CacheEntry>, k: u64, j: int)
    requires
        keys_unique(s),
        0 <= j < s.len(),
        s[j].key == k,
    ensures
        has_key(s, k),
        key_index(s, k) == j,
        entry_of(s, k) == s[j],
{
    assert(has_key(s, k));
    let i = key_index(s, k);
    if i != j {
        if i < j {
            assert(s[i].key != s[j].key);
        } else {
            assert(s[j].key != s[i].key);
        }
    }
}

/// The memo table of one rendering context, with a counter of how many
/// times an element list was (re)built, observable for tests.
pub struct ShadowCache {
    /// The rows, unordered, with unique keys; private, so rows can only
    /// come from [`ShadowCache::get_or_build`] and always hold elements
    /// built from their stored parameters.
    entries: Vec<CacheEntry>,
    /// How many rebuilds have happened over the cache's lifetime.
    builds: u64,
}

/// Did the sweep of `old` under `alive` keep a row for `key` whose stored
/// parameters equal `params` — i.e. will the call be a pure cache hit?
pub open spec fn cache_hit(
    old: Seq<CacheEntry>,
    alive: Seq<u64>,
    key: u64,
    params: ShadowParameters,
) -> bool {
    has_key(old, key) && alive.contains(key) && entry_of(old, key).params == params
}

impl ShadowCache {
    /// The cache rows.
    pub closed spec fn rows(self) -> Seq<CacheEntry> {
        self.entries@
    }

    /// The rebuild counter.
    pub closed spec fn build_count(self) -> u64 {
        self.builds
    }

    /// The cache's invariant: keys are unique.
    pub closed spec fn wf(self) -> bool {
        keys_unique(self.entries@)
    }

    /// An empty cache.
    pub fn new() -> (r: ShadowCache)
        ensures
            r.wf(),
            r.rows().len() == 0,
            r.build_count() == 0,
    {
        ShadowCache { entries: Vec::new(), builds: 0 }
    }

    /// Number of rows.
    pub fn len(&self) -> (r: usize)
        ensures
            r == self.rows().len(),
    {
        self.entries.len()
    }

    /// The rebuild counter.
    pub fn builds(&self) -> (r: u64)
        ensures
            r == self.build_count(),
    {
        self.builds
    }

    /// Is there a row for the key?
    pub fn contains_key(&self, k: u64) -> (r: bool)
        ensures
            r == has_key(self.rows(), k),
    {
        let n = self.entries.len();
        let mut i: usize = 0;
        while i < n
            invariant
                i <= n,
                n == self.entries@.len(),
                forall|m: int| 0 <= m < i ==> (#[trigger] self.entries@[m]).key != k,
            decreases n - i,
        {
            if self.entries[i].key == k {
                return true;
            }
            i += 1;
        }
        false
    }

    /// Removes every row whose key is not in `alive`. Rows that stay keep
    /// their exact contents; no row appears out of nowhere.
    fn sweep(&mut self, alive: &Vec<u64>)
        requires
            old(self).wf(),
        ensures
            final(self).wf(),
            final(self).build_count() == old(self).build_count(),
            forall|j: int|
                0 <= j < final(self).rows().len() ==> old(self).rows().contains(
                    #[trigger] final(self).rows()[j],
                ) && alive@.contains(final(self).rows()[j].key),
            forall|m: int|
                0 <= m < old(self).rows().len() && alive@.contains(
                    (#[trigger] old(self).rows()[m]).key,
                ) ==> final(self).rows().contains(old(self).rows()[m]),
    {
        let ghost orig = self.entries@;
        let mut i: usize = 0;
        let mut k: usize = 0;
        let n = self.entries.len();
        while k < n
            invariant
                i <= k <= n,
                n == orig.len(),
                self.builds == old(self).build_count(),
                self.entries@.len() == i + (n - k),
                keys_unique(orig),
                self.entries@.skip(i as int) =~= orig.skip(k as int),
                forall|j: int|
                    0 <= j < i ==> orig.contains(#[trigger] self.entries@[j]) && alive@.contains(
                        self.entries@[j].key,
                    ),
                forall|m: int|
                    0 <= m < k && alive@.contains((#[trigger] orig[m]).key)
                        ==> self.entries@.take(i as int).contains(orig[m]),
                keys_unique(self.entries@),
            decreases n - k,
        {
            proof {
                assert(self.entries@[i as int] == self.entries@.skip(i as int)[0]);
                assert(orig.skip(k as int)[0] == orig[k as int]);
            }
            let ghost pre = self.entries@;
            let keep = contains_u64(alive, self.entries[i].key);
            if keep {
                i += 1;
                proof {
                    assert(pre.take(i as int) =~= pre.take(i as int - 1).push(pre[i as int - 1]));
                    assert forall|m: int|
                        0 <= m < k + 1 && alive@.contains((#[trigger] orig[m]).key)
                            implies self.entries@.take(i as int).contains(orig[m]) by {
                        if m < k {
                            assert(pre.take(i as int - 1).contains(orig[m]));
                            let w = choose|w: int|
                                0 <= w < i as int - 1 && #[trigger] pre.take(i as int - 1)[w] == orig[m];
                            assert(self.entries@.take(i as int)[w] == orig[m]);
                        } else {
                            assert(self.entries@.take(i as int)[i as int - 1] == orig[m]);
                        }
                    }
                    assert(pre.skip(i as int - 1).skip(1) =~= pre.skip(i as int));
                    assert(orig.skip(k as int).skip(1) =~= orig.skip(k as int + 1));
                    assert(self.entries@.skip(i as int) =~= orig.skip(k as int + 1));
                }
            } else {
                self.entries.remove(i);
                proof {
                    assert(self.entries@ =~= pre.take(i as int) + pre.skip(i as int + 1));
                    assert(pre.skip(i as int).skip(1) =~= pre.skip(i as int + 1));
                    assert(orig.skip(k as int).skip(1) =~= orig.skip(k as int + 1));
                    assert(self.entries@.skip(i as int) =~= orig.skip(k as int + 1));
                    assert(self.entries@.take(i as int) =~= pre.take(i as int));
                    assert forall|j1: int, j2: int|
                        #![trigger self.entries@[j1], self.entries@[j2]]
                        0 <= j1 < j2 < self.entries@.len() implies self.entries@[j1].key
                            != self.entries@[j2].key by {
                        if j1 < i {
                            assert(self.entries@[j1] == pre[j1]);
                        } else {
                            assert(self.entries@[j1] == pre[j1 + 1]);
                        }
                        if j2 < i {
                            assert(self.entries@[j2] == pre[j2]);
                        } else {
                            assert(self.entries@[j2] == pre[j2 + 1]);
                        }
                    }
                    assert forall|m: int|
                        0 <= m < k + 1 && alive@.contains((#[trigger] orig[m]).key)
                            implies self.entries@.take(i as int).contains(orig[m]) by {
                        if m < k {
                            assert(pre.take(i as int).contains(orig[m]));
                            let w = choose|w: int|
                                0 <= w < i && #[trigger] pre.take(i as int)[w] == orig[m];
                            assert(self.entries@.take(i as int)[w] == orig[m]);
                        } else {
                            assert(orig[m] == pre[i as int]);
                            assert(!alive@.contains(orig[m].key));
                        }
                    }
                }
            }
            k += 1;
        }
        proof {
            assert(self.entries@.take(i as int) =~= self.entries@);
            assert forall|m: int|
                0 <= m < orig.len() && alive@.contains((#[trigger] orig[m]).key)
                    implies self.entries@.contains(orig[m]) by {
                assert(self.entries@.take(i as int).contains(orig[m]));
                let w = choose|w: int|
                    0 <= w < i && #[trigger] self.entries@.take(i as int)[w] == orig[m];
                assert(self.entries@[w] == orig[m]);
            }
        }
    }

    /// The one entry point: sweep dead keys, then return the cached
    /// elements on a hit or rebuild, store and return them on a miss.
    ///
    /// On a hit (a surviving row for `key` stores parameters equal to
    /// `params`) the stored elements come back unchanged and the build
    /// counter does not move. Otherwise the elements are rebuilt from the
    /// parameters, the row for `key` is inserted or replaced, and the
    /// build counter grows by one. After the call the cache holds rows
    /// only for `key` and for keys listed alive, and every other surviving
    /// row is untouched.
    pub fn get_or_build(
        &mut self,
        alive: &Vec<u64>,
        key: u64,
        params: ShadowParameters,
        scale: Scale,
        alpha: Frac,
        shader: u64,
    ) -> (out: Vec<DrawableElement>)
        requires
            old(self).wf(),
            scale.valid(),
            params.geo.bounded(),
            old(self).build_count() < u64::MAX,
        ensures
            final(self).wf(),
            // Dead-key purge: only live keys and the requested key remain.
            forall|k2: u64|
                has_key(final(self).rows(), k2) ==> alive@.contains(k2) || k2 == key,
            // The requested key always has a row afterwards, holding
            // exactly what was returned.
            has_key(final(self).rows(), key),
            entry_of(final(self).rows(), key).params == params,
            entry_of(final(self).rows(), key).elements@ == out@,
            // Other surviving rows are untouched.
            forall|m: int|
                0 <= m < old(self).rows().len() && alive@.contains(
                    (#[trigger] old(self).rows()[m]).key,
                ) && old(self).rows()[m].key != key ==> final(self).rows().contains(
                    old(self).rows()[m],
                ),
            forall|j: int|
                #![trigger final(self).rows()[j]]
                0 <= j < final(self).rows().len() && final(self).rows()[j].key != key
                    ==> old(self).rows().contains(final(self).rows()[j]),
            // Hit stability: equal parameters under a live key return the
            // stored elements with no rebuild.
            cache_hit(old(self).rows(), alive@, key, params) ==> {
                &&& final(self).build_count() == old(self).build_count()
                &&& out@ == entry_of(old(self).rows(), key).elements@
            },
            // Invalidation: anything else forces exactly one rebuild, and
            // what comes back is built from these parameters.
            !cache_hit(old(self).rows(), alive@, key, params) ==> {
                &&& final(self).build_count() == old(self).build_count() + 1
                &&& exists|g: ShadowGeometry|
                    geometry_matches(g, params.geo, params.radius, scale) && elements_match(
                        out@,
                        g,
                        shader,
                        alpha,
                    )
            },
    {
        let ghost orig = self.entries@;
        self.sweep(alive);
        proof {
            // Restate the sweep guarantees over the raw row sequence.
            assert(old(self).rows() == orig);
            assert forall|j: int|
                0 <= j < self.entries@.len() implies orig.contains(
                #[trigger] self.entries@[j],
            ) && alive@.contains(self.entries@[j].key) by {
                assert(self.rows()[j] == self.entries@[j]);
            }
            assert forall|m: int|
                0 <= m < orig.len() && alive@.contains((#[trigger] orig[m]).key)
                    implies self.entries@.contains(orig[m]) by {
                assert(old(self).rows()[m] == orig[m]);
                assert(self.rows().contains(orig[m]));
            }
        }
        let n = self.entries.len();
        let mut found: usize = n;
        let mut j: usize = 0;
        while j < n && found == n
            invariant
                j <= n,
                n == self.entries@.len(),
                found <= n,
                found == n ==> forall|m: int| 0 <= m < j ==> (#[trigger] self.entries@[m]).key != key,
                found < n ==> self.entries@[found as int].key == key,
            decreases n - j + (if found == n { 1int } else { 0int }),
        {
            if self.entries[j].key == key {
                found = j;
            } else {
                j += 1;
            }
        }
        if found < n {
            proof {
                lemma_key_index(self.entries@, key, found as int);
            }
            if self.entries[found].params == params {
                // Cache hit: hand the stored elements back unchanged.
                let out = copy_elements(&self.entries[found].elements);
                proof {
                    let e = self.entries@[found as int];
                    assert(orig.contains(e) && alive@.contains(e.key));
                    let m = choose|m: int| 0 <= m < orig.len() && #[trigger] orig[m] == e;
                    lemma_key_index(orig, key, m);
                    assert(cache_hit(orig, alive@, key, params));
                }
                return out;
            }
            // Stale parameters: drop the row, rebuild below.
            let ghost pre = self.entries@;
            self.entries.remove(found);
            proof {
                assert forall|j1: int, j2: int|
                    #![trigger self.entries@[j1], self.entries@[j2]]
                    0 <= j1 < j2 < self.entries@.len() implies self.entries@[j1].key
                        != self.entries@[j2].key by {
                    if j1 < found {
                        assert(self.entries@[j1] == pre[j1]);
                    } else {
                        assert(self.entries@[j1] == pre[j1 + 1]);
                    }
                    if j2 < found {
                        assert(self.entries@[j2] == pre[j2]);
                    } else {
                        assert(self.entries@[j2] == pre[j2 + 1]);
                    }
                }
                assert forall|m: int|
                    0 <= m < self.entries@.len() implies (#[trigger] self.entries@[m]).key
                        != key by {
                    if m < found {
                        assert(self.entries@[m] == pre[m]);
                        assert(pre[m].key != pre[found as int].key);
                    } else {
                        assert(self.entries@[m] == pre[m + 1]);
                        assert(pre[found as int].key != pre[m + 1].key);
                    }
                }
                assert forall|m: int|
                    0 <= m < self.entries@.len() implies orig.contains(
                    #[trigger] self.entries@[m],
                ) && alive@.contains(self.entries@[m].key) by {
                    if m < found {
                        assert(self.entries@[m] == pre[m]);
                    } else {
                        assert(self.entries@[m] == pre[m + 1]);
                    }
                }
                assert forall|m: int|
                    0 <= m < pre.len() && m != found implies self.entries@.contains(
                    #[trigger] pre[m],
                ) by {
                    if m < found {
                        assert(self.entries@[m] == pre[m]);
                    } else {
                        assert(self.entries@[m - 1] == pre[m]);
                    }
                }
                if cache_hit(orig, alive@, key, params) {
                    let e = entry_of(orig, key);
                    assert(self.entries@.len() == pre.len() - 1);
                    assert(orig.contains(pre[found as int]));
                    let m0 = choose|m0: int|
                        0 <= m0 < orig.len() && #[trigger] orig[m0] == pre[found as int];
                    lemma_key_index(orig, key, m0);
                    assert(e == pre[found as int]);
                    assert(e.params == params);
                    assert(false);
                }
            }
        } else {
            proof {
                if cache_hit(orig, alive@, key, params) {
                    let e = entry_of(orig, key);
                    let m = key_index(orig, key);
                    assert(orig[m].key == key && alive@.contains(orig[m].key));
                    assert(self.entries@.contains(orig[m]));
                    let w = choose|w: int|
                        0 <= w < self.entries@.len() && #[trigger] self.entries@[w] == orig[m];
                    assert(self.entries@[w].key == key);
                    assert(false);
                }
            }
        }
        // Rebuild from the parameters and store the fresh row.
        let ghost swept = self.entries@;
        let g = compute_geometry(params.geo, params.radius, scale);
        let out = build_elements(&g, shader, alpha);
        let stored = copy_elements(&out);
        let ghost stored_view = stored@;
        self.builds = self.builds + 1;
        self.entries.push(CacheEntry { key, params, elements: stored });
        proof {
            let fin = self.entries@;
            assert(fin.len() == swept.len() + 1);
            assert(fin[fin.len() - 1].key == key);
            assert(fin[fin.len() - 1].params == params);
            assert(fin[fin.len() - 1].elements@ == stored_view);
            assert forall|j1: int, j2: int|
                #![trigger fin[j1], fin[j2]]
                0 <= j1 < j2 < fin.len() implies fin[j1].key != fin[j2].key by {
                if j2 == fin.len() - 1 {
                    assert(fin[j1] == swept[j1]);
                    assert(swept[j1].key != key);
                } else {
                    assert(fin[j1] == swept[j1] && fin[j2] == swept[j2]);
                }
            }
            lemma_key_index(fin, key, fin.len() - 1);
            assert(geometry_matches(g, params.geo, params.radius, scale));
            assert(elements_match(out@, g, shader, alpha));
            assert forall|m: int|
                0 <= m < orig.len() && alive@.contains((#[trigger] orig[m]).key) && orig[m].key
                    != key implies fin.contains(orig[m]) by {
                assert(swept.contains(orig[m]));
                let w = choose|w: int| 0 <= w < swept.len() && #[trigger] swept[w] == orig[m];
                assert(fin[w] == orig[m]);
            }
            assert forall|j2: int|
                0 <= j2 < fin.len() && (#[trigger] fin[j2]).key != key implies orig.contains(
                fin[j2],
            ) by {
                assert(fin[j2] == swept[j2]);
            }
        }
        out
    }
}

/// Does the list contain the key?
fn contains_u64(v: &Vec<u64>, x: u64) -> (r: bool)
    ensures
        r == v@.contains(x),
{
    let n = v.len();
    let mut i: usize = 0;
    while i < n
        invariant
            i <= n,
            n == v@.len(),
            forall|m: int| 0 <= m < i ==> v@[m] != x,
        decreases n - i,
    {
        if v[i] == x {
            return true;
        }
        i += 1;
    }
    false
}

/// A fresh list with the same elements (elements are plain copyable data).
fn copy_elements(v: &Vec<DrawableElement>) -> (out: Vec<DrawableElement>)
    ensures
        out@ == v@,
{
    let mut out: Vec<DrawableElement> = Vec::new();
    let n = v.len();
    let mut i: usize = 0;
    while i < n
        invariant
            i <= n,
            n == v@.len(),
            out@ == v@.take(i as int),
        decreases n - i,
    {
        out.push(v[i]);
        proof {
            assert(out@ =~= v@.take(i + 1));
        }
        i += 1;
    }
    proof {
        assert(v@.take(n as int) =~= v@);
    }
    out
}

} // verus!
