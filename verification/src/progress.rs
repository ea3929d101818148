//! The progress cache: the in-memory, time-stamped map from job id to
//! its latest reported progress, the guard against spurious zero
//! reports, the immediate-persistence threshold, and the periodic
//! flush/evict split. Progress is carried in hundredths of a percent.

use vstd::prelude::*;
use crate::strutil::str_eq;
use crate::jobs::PROGRESS_SCALE;

verus! {

/// Persist at once when progress moved by more than one percentage
/// point since the last persisted value.
pub const IMMEDIATE_PROGRESS_DELTA: u64 = 100;

/// Persist at once when more than this many bytes arrived since the
/// last persisted value.
pub const IMMEDIATE_BYTES_DELTA: u64 = 1000000;

/// Evict a cache entry untouched for this long (milliseconds).
pub const STALENESS_WINDOW_MILLIS: u64 = 30000;

/// One valid progress object from the engine's stdout.
pub struct ProgressEvent {
    pub id: String,
    /// Hundredths of a percent, already clamped to `0..=PROGRESS_SCALE`.
    pub progress: u64,
    pub downloaded: u64,
    pub total: u64,
    pub speed: u64,
}

/// The cached latest progress of one job.
#[derive(Clone, Copy, PartialEq, Eq, Structural, Debug)]
pub struct CacheEntry {
    pub progress: u64,
    pub downloaded: u64,
    pub total: u64,
    pub speed: u64,
    pub last_update_millis: u64,
}

/// A zero-byte report against a record that already holds progress is
/// engine-restart noise: broadcast, but never persisted.
pub open spec fn spurious_zero(event_downloaded: u64, stored_downloaded: u64) -> bool {
    event_downloaded == 0 && stored_downloaded > 0
}

/// The persisted byte count after one event is applied to it.
pub open spec fn stored_after(stored: u64, event_downloaded: u64) -> u64 {
    if spurious_zero(event_downloaded, stored) {
        stored
    } else {
        event_downloaded
    }
}

/// The persisted byte count after a whole sequence of events.
pub open spec fn stored_at(init: u64, evs: Seq<u64>, k: int) -> u64
    recommends
        0 <= k <= evs.len(),
    decreases k,
{
    if k <= 0 {
        init
    } else {
        stored_after(stored_at(init, evs, k - 1), evs[k - 1])
    }
}

/// Whether the change since the values last written to the job row is
/// large enough to persist at once rather than wait for the periodic
/// flush: more than one percentage point of progress, or more than a
/// million bytes.
pub open spec fn spec_save_now(
    stored_progress: u64,
    stored_downloaded: u64,
    progress: u64,
    downloaded: u64,
) -> bool {
    let pd = if progress >= stored_progress {
        progress - stored_progress
    } else {
        stored_progress - progress
    };
    let dd = if downloaded >= stored_downloaded {
        downloaded - stored_downloaded
    } else {
        stored_downloaded - downloaded
    };
    pd > IMMEDIATE_PROGRESS_DELTA || dd > IMMEDIATE_BYTES_DELTA
}

/// An entry is fresh while it was touched within the staleness window.
pub open spec fn is_fresh(e: CacheEntry, now_millis: u64, window: u64) -> bool {
    now_millis <= e.last_update_millis || now_millis - e.last_update_millis < window
}

pub struct ProgressCache {
    entries: Vec<(String, CacheEntry)>,
}

impl ProgressCache {
    pub closed spec fn keys(self) -> Seq<Seq<char>> {
        self.entries@.map_values(|e: (String, CacheEntry)| e.0@)
    }

    pub closed spec fn values(self) -> Seq<CacheEntry> {
        self.entries@.map_values(|e: (String, CacheEntry)| e.1)
    }

    pub open spec fn wf(self) -> bool {
        forall|i: int, j: int|
            0 <= i < j < self.keys().len() ==> self.keys()[i] != self.keys()[j]
    }

    pub open spec fn spec_contains(self, id: Seq<char>) -> bool {
        exists|i: int| 0 <= i < self.keys().len() && self.keys()[i] == id
    }

    pub open spec fn index_of(self, id: Seq<char>) -> int {
        choose|i: int| 0 <= i < self.keys().len() && self.keys()[i] == id
    }

    /// The cached entry for an id (meaningful only when present).
    pub open spec fn entry_of(self, id: Seq<char>) -> CacheEntry {
        self.values()[self.index_of(id)]
    }

    pub fn new() -> (r: ProgressCache)
        ensures
            r.wf(),
            r.keys().len() == 0,
            forall|id: Seq<char>| !r.spec_contains(id),
    {
        ProgressCache { entries: Vec::new() }
    }

    fn find(&self, id: &str) -> (r: Option<usize>)
        ensures
            match r {
                Some(i) => i < self.keys().len() && self.keys()[i as int] == id@,
                None => !self.spec_contains(id@),
            },
    {
        let n = self.entries.len();
        let mut i: usize = 0;
        while i < n
            invariant
                i <= n,
                n == self.keys().len(),
                forall|k: int| 0 <= k < i ==> self.keys()[k] != id@,
            decreases n - i,
        {
            let e = &self.entries[i];
            if str_eq(e.0.as_str(), id) {
                return Some(i);
            }
            i += 1;
        }
        None
    }

    /// The cached entry for an id, if any.
    pub fn lookup(&self, id: &str) -> (r: Option<CacheEntry>)
        requires
            self.wf(),
        ensures
            match r {
                Some(e) => self.spec_contains(id@) && e == self.entry_of(id@),
                None => !self.spec_contains(id@),
            },
    {
        match self.find(id) {
            Some(i) => {
                let e = &self.entries[i];
                proof {
                    let j = self.index_of(id@);
                    assert(self.keys()[j] == id@);
                    assert(j == i);
                }
                Some(e.1)
            },
            None => None,
        }
    }

    /// Inserts or overwrites the entry for `id`.
    fn put(&mut self, id: &str, entry: CacheEntry)
        requires
            old(self).wf(),
        ensures
            final(self).wf(),
            final(self).spec_contains(id@),
            final(self).entry_of(id@) == entry,
            forall|other: Seq<char>|
                other != id@ ==> final(self).spec_contains(other) == old(self).spec_contains(
                    other,
                ),
            forall|other: Seq<char>|
                other != id@ && old(self).spec_contains(other) ==> final(self).entry_of(other)
                    == old(self).entry_of(other),
    {
        let ghost old_keys = self.keys();
        let ghost old_vals = self.values();
        match self.find(id) {
            Some(i) => {
                // Replace the value in place; the key set is unchanged.
                let key = self.entries[i].0.clone();
                self.entries[i] = (key, entry);
                proof {
                    assert(self.keys() =~= old_keys);
                    assert(self.values() =~= old_vals.update(i as int, entry));
                    let j = self.index_of(id@);
                    assert(self.keys()[j] == id@);
                    assert(j == i);
                    assert forall|other: Seq<char>|
                        other != id@ && old(self).spec_contains(other) implies self.entry_of(
                        other,
                    ) == old(self).entry_of(other) by {
                        let k = old(self).index_of(other);
                        assert(old_keys[k] == other);
                        assert(self.keys()[k] == other);
                        let k2 = self.index_of(other);
                        assert(k2 == k);
                        assert(k != i);
                    }
                }
            },
            None => {
                self.entries.push((id.to_owned(), entry));
                proof {
                    assert(self.keys() =~= old_keys.push(id@));
                    assert(self.values() =~= old_vals.push(entry));
                    let n = self.keys().len() - 1;
                    assert(self.keys()[n] == id@);
                    let j = self.index_of(id@);
                    assert(self.keys()[j] == id@);
                    assert(j == n);
                    assert forall|other: Seq<char>|
                        other != id@ implies self.spec_contains(other) == old(self).spec_contains(
                        other,
                    ) by {
                        if old(self).spec_contains(other) {
                            let k = choose|k: int|
                                0 <= k < old_keys.len() && old_keys[k] == other;
                            assert(self.keys()[k] == other);
                        }
                        if self.spec_contains(other) {
                            let k = choose|k: int|
                                0 <= k < self.keys().len() && self.keys()[k] == other;
                            assert(k != n);
                            assert(old_keys[k] == other);
                        }
                    }
                    assert forall|other: Seq<char>|
                        other != id@ && old(self).spec_contains(other) implies self.entry_of(
                        other,
                    ) == old(self).entry_of(other) by {
                        let k = old(self).index_of(other);
                        assert(old_keys[k] == other);
                        assert(self.keys()[k] == other);
                        let k2 = self.index_of(other);
                        assert(k2 == k);
                    }
                }
            },
        }
    }

    /// Drops the entry for `id`, if any; called when a job's process
    /// exits.
    pub fn remove(&mut self, id: &str)
        requires
            old(self).wf(),
        ensures
            final(self).wf(),
            !final(self).spec_contains(id@),
            forall|other: Seq<char>|
                other != id@ ==> final(self).spec_contains(other) == old(self).spec_contains(
                    other,
                ),
            forall|other: Seq<char>|
                other != id@ && old(self).spec_contains(other) ==> final(self).entry_of(other)
                    == old(self).entry_of(other),
    {
        let ghost old_keys = self.keys();
        let ghost old_vals = self.values();
        match self.find(id) {
            Some(i) => {
                self.entries.remove(i);
                proof {
                    assert(self.keys() =~= old_keys.remove(i as int));
                    assert(self.values() =~= old_vals.remove(i as int));
                    assert forall|k: int| 0 <= k < self.keys().len() implies self.keys()[k]
                        != id@ by {
                        if k < i {
                            assert(self.keys()[k] == old_keys[k]);
                        } else {
                            assert(self.keys()[k] == old_keys[k + 1]);
                        }
                    }
                    assert forall|other: Seq<char>|
                        other != id@ && old(self).spec_contains(other) implies self.spec_contains(
                        other,
                    ) && self.entry_of(other) == old(self).entry_of(other) by {
                        let k = old(self).index_of(other);
                        assert(old_keys[k] == other);
                        assert(k != i);
                        if k < i {
                            assert(self.keys()[k] == other);
                        } else {
                            assert(self.keys()[k - 1] == other);
                        }
                        let k2 = self.index_of(other);
                        assert(self.keys()[k2] == other);
                        if k < i {
                            assert(k2 == k);
                            assert(old_vals[k] == self.values()[k2]);
                        } else {
                            assert(k2 == k - 1);
                            assert(old_vals[k] == self.values()[k2]);
                        }
                    }
                    assert forall|other: Seq<char>|
                        other != id@ && self.spec_contains(other) implies old(self).spec_contains(
                        other,
                    ) by {
                        let k = choose|k: int|
                            0 <= k < self.keys().len() && self.keys()[k] == other;
                        if k < i {
                            assert(old_keys[k] == other);
                        } else {
                            assert(old_keys[k + 1] == other);
                        }
                    }
                }
            },
            None => {},
        }
    }

    /// Applies one valid progress event: decides, in one place, whether
    /// the event is persisted, while the caller always re-broadcasts it.
    /// A spurious zero (the record already holds bytes) leaves both the
    /// cache and the store untouched; otherwise the cache is overwritten
    /// and the event is persisted at once exactly when it moved far
    /// enough from the values the job row last received, so the row's
    /// staleness stays bounded no matter what the cache saw meanwhile.
    pub fn observe(
        &mut self,
        stored_progress: u64,
        stored_downloaded: u64,
        ev: &ProgressEvent,
        now_millis: u64,
    ) -> (persist: bool)
        requires
            old(self).wf(),
            ev.progress <= PROGRESS_SCALE,
        ensures
            final(self).wf(),
            spurious_zero(ev.downloaded, stored_downloaded) ==> !persist && *final(self) == *old(
                self,
            ),
            !spurious_zero(ev.downloaded, stored_downloaded) ==> {
                &&& persist == spec_save_now(
                    stored_progress,
                    stored_downloaded,
                    ev.progress,
                    ev.downloaded,
                )
                &&& final(self).spec_contains(ev.id@)
                &&& final(self).entry_of(ev.id@) == (CacheEntry {
                    progress: ev.progress,
                    downloaded: ev.downloaded,
                    total: ev.total,
                    speed: ev.speed,
                    last_update_millis: now_millis,
                })
                &&& forall|other: Seq<char>|
                    other != ev.id@ ==> final(self).spec_contains(other) == old(
                        self,
                    ).spec_contains(other)
                &&& forall|other: Seq<char>|
                    other != ev.id@ && old(self).spec_contains(other) ==> final(self).entry_of(
                        other,
                    ) == old(self).entry_of(other)
            },
    {
        if ev.downloaded == 0 && stored_downloaded > 0 {
            return false;
        }
        let pd = if ev.progress >= stored_progress {
            ev.progress - stored_progress
        } else {
            stored_progress - ev.progress
        };
        let dd = if ev.downloaded >= stored_downloaded {
            ev.downloaded - stored_downloaded
        } else {
            stored_downloaded - ev.downloaded
        };
        let persist = pd > IMMEDIATE_PROGRESS_DELTA || dd > IMMEDIATE_BYTES_DELTA;
        self.put(
            ev.id.as_str(),
            CacheEntry {
                progress: ev.progress,
                downloaded: ev.downloaded,
                total: ev.total,
                speed: ev.speed,
                last_update_millis: now_millis,
            },
        );
        persist
    }

    /// The id/entry pairs of the cache, in insertion order.
    pub closed spec fn pairs(self) -> Seq<(Seq<char>, CacheEntry)> {
        self.entries@.map_values(|e: (String, CacheEntry)| (e.0@, e.1))
    }

    /// The periodic persister's single pass: returns the fresh entries,
    /// to be written to the store, and evicts every stale one, so the
    /// cache keeps exactly what it hands out for saving.
    pub fn flush_split(&mut self, now_millis: u64, window: u64) -> (r: Vec<(String, CacheEntry)>)
        requires
            old(self).wf(),
        ensures
            final(self).wf(),
            final(self).pairs() == old(self).pairs().filter(fresh_pred(now_millis, window)),
            r@.map_values(|e: (String, CacheEntry)| (e.0@, e.1)) == final(self).pairs(),
    {
        let ghost old_pairs = self.pairs();
        let ghost pred = fresh_pred(now_millis, window);
        let n = self.entries.len();
        let mut kept: Vec<(String, CacheEntry)> = Vec::new();
        let mut out: Vec<(String, CacheEntry)> = Vec::new();
        proof {
            assert(old_pairs.subrange(0, 0).filter(pred) =~= Seq::<(
                Seq<char>,
                CacheEntry,
            )>::empty());
            assert(kept@.map_values(|e: (String, CacheEntry)| (e.0@, e.1)) =~= Seq::<(
                Seq<char>,
                CacheEntry,
            )>::empty());
        }
        let mut i: usize = 0;
        while i < n
            invariant
                i <= n,
                n == self.entries@.len(),
                self.pairs() == old_pairs,
                self.wf(),
                pred == fresh_pred(now_millis, window),
                kept@.map_values(|e: (String, CacheEntry)| (e.0@, e.1)) == old_pairs.subrange(
                    0,
                    i as int,
                ).filter(pred),
                out@.map_values(|e: (String, CacheEntry)| (e.0@, e.1)) == kept@.map_values(
                    |e: (String, CacheEntry)| (e.0@, e.1),
                ),
            decreases n - i,
        {
            let ghost prev = old_pairs.subrange(0, i as int);
            proof {
                reveal(Seq::filter);
                assert(old_pairs.subrange(0, i + 1).drop_last() =~= prev);
                assert(old_pairs.subrange(0, i + 1).last() == old_pairs[i as int]);
            }
            let e = &self.entries[i];
            let fresh = now_millis <= e.1.last_update_millis || now_millis
                - e.1.last_update_millis < window;
            proof {
                assert(old_pairs[i as int] == (e.0@, e.1));
                assert(fresh == pred(old_pairs[i as int]));
            }
            if fresh {
                let ghost kept_view = kept@.map_values(|e: (String, CacheEntry)| (e.0@, e.1));
                kept.push((e.0.clone(), e.1));
                out.push((e.0.clone(), e.1));
                proof {
                    assert(kept@.map_values(|e: (String, CacheEntry)| (e.0@, e.1)) =~= kept_view
                        .push((e.0@, e.1)));
                    assert(out@.map_values(|e: (String, CacheEntry)| (e.0@, e.1)) =~= kept_view
                        .push((e.0@, e.1)));
                    assert(old_pairs.subrange(0, i + 1).filter(pred) == prev.filter(pred).push(
                        old_pairs[i as int],
                    ));
                }
            } else {
                proof {
                    assert(old_pairs.subrange(0, i + 1).filter(pred) == prev.filter(pred));
                }
            }
            i += 1;
        }
        proof {
            assert(old_pairs.subrange(0, n as int) =~= old_pairs);
        }
        self.entries = kept;
        proof {
            assert(self.pairs() =~= old_pairs.filter(pred));
            assert forall|p: int, q: int|
                0 <= p < q < old_pairs.len() implies old_pairs[p].0 != old_pairs[q].0 by {
                assert(old_pairs[p].0 == old(self).keys()[p]);
                assert(old_pairs[q].0 == old(self).keys()[q]);
            }
            lemma_filter_pairs_distinct(old_pairs, pred);
            assert forall|p: int, q: int|
                0 <= p < q < self.keys().len() implies self.keys()[p] != self.keys()[q] by {
                assert(self.keys()[p] == self.pairs()[p].0);
                assert(self.keys()[q] == self.pairs()[q].0);
            }
        }
        out
    }
}

/// Freshness of a cached pair against the staleness window.
pub open spec fn fresh_pred(now_millis: u64, window: u64) -> spec_fn((Seq<char>, CacheEntry)) -> bool {
    |p: (Seq<char>, CacheEntry)| is_fresh(p.1, now_millis, window)
}

/// Filtering pairs with pairwise-distinct keys keeps the keys
/// pairwise distinct, since every kept pair already stood in the cache.
proof fn lemma_filter_pairs_distinct(
    pairs: Seq<(Seq<char>, CacheEntry)>,
    pred: spec_fn((Seq<char>, CacheEntry)) -> bool,
)
    requires
        forall|i: int, j: int| 0 <= i < j < pairs.len() ==> pairs[i].0 != pairs[j].0,
    ensures
        forall|i: int|
            0 <= i < pairs.filter(pred).len() ==> pairs.contains(#[trigger] pairs.filter(pred)[i]),
        forall|i: int, j: int|
            0 <= i < j < pairs.filter(pred).len() ==> pairs.filter(pred)[i].0 != pairs.filter(
                pred,
            )[j].0,
    decreases pairs.len(),
{
    reveal(Seq::filter);
    if pairs.len() > 0 {
        let d = pairs.drop_last();
        let flt = pairs.filter(pred);
        let f = d.filter(pred);
        lemma_filter_pairs_distinct(d, pred);
        assert forall|i: int| 0 <= i < flt.len() implies pairs.contains(#[trigger] flt[i]) by {
            if pred(pairs.last()) && i == flt.len() - 1 {
                assert(flt[i] == pairs[pairs.len() - 1]);
            } else {
                assert(flt[i] == f[i]);
                assert(d.contains(f[i]));
                let m = choose|m: int| 0 <= m < d.len() && d[m] == f[i];
                assert(pairs[m] == f[i]);
            }
        }
        assert forall|i: int, j: int|
            0 <= i < j < flt.len() implies flt[i].0 != flt[j].0 by {
            if pred(pairs.last()) && j == flt.len() - 1 {
                assert(flt[i] == f[i]);
                assert(d.contains(f[i]));
                let m = choose|m: int| 0 <= m < d.len() && d[m] == f[i];
                assert(pairs[m] == f[i]);
                assert(pairs[m].0 != pairs[pairs.len() - 1].0);
            } else {
                assert(flt[i] == f[i] && flt[j] == f[j]);
            }
        }
    }
}

/// The persisted byte count never regresses: over any sequence of
/// events whose non-zero byte counts are non-decreasing and no smaller
/// than the initially stored count, the stored count after each prefix
/// is non-decreasing, even when the engine emits out-of-order zeros.
pub proof fn lemma_persisted_monotone(init: u64, evs: Seq<u64>)
    requires
        forall|i: int, j: int|
            0 <= i < j < evs.len() && evs[i] != 0 && evs[j] != 0 ==> evs[i] <= evs[j],
        forall|i: int| 0 <= i < evs.len() && evs[i] != 0 ==> init <= evs[i],
    ensures
        forall|k: int, l: int|
            0 <= k <= l <= evs.len() ==> stored_at(init, evs, k) <= stored_at(init, evs, l),
{
    assert forall|k: int| 0 <= k <= evs.len() implies stored_invariant(init, evs, k) by {
        lemma_stored_invariant(init, evs, k);
    }
    assert forall|k: int, l: int|
        0 <= k <= l <= evs.len() implies stored_at(init, evs, k) <= stored_at(init, evs, l) by {
        lemma_monotone_range(init, evs, k, l);
    }
}

/// The stored value after `k` events is the initial value, zero, or one
/// of the non-zero event values seen so far.
spec fn stored_invariant(init: u64, evs: Seq<u64>, k: int) -> bool {
    ||| stored_at(init, evs, k) == init
    ||| stored_at(init, evs, k) == 0
    ||| exists|m: int| 0 <= m < k && evs[m] != 0 && evs[m] == stored_at(init, evs, k)
}

proof fn lemma_stored_invariant(init: u64, evs: Seq<u64>, k: int)
    requires
        0 <= k <= evs.len(),
    ensures
        stored_invariant(init, evs, k),
    decreases k,
{
    if k > 0 {
        lemma_stored_invariant(init, evs, k - 1);
    }
}

proof fn lemma_monotone_step(init: u64, evs: Seq<u64>, k: int)
    requires
        0 <= k < evs.len(),
        forall|i: int, j: int|
            0 <= i < j < evs.len() && evs[i] != 0 && evs[j] != 0 ==> evs[i] <= evs[j],
        forall|i: int| 0 <= i < evs.len() && evs[i] != 0 ==> init <= evs[i],
    ensures
        stored_at(init, evs, k) <= stored_at(init, evs, k + 1),
{
    lemma_stored_invariant(init, evs, k);
}

proof fn lemma_monotone_range(init: u64, evs: Seq<u64>, k: int, l: int)
    requires
        0 <= k <= l <= evs.len(),
        forall|i: int, j: int|
            0 <= i < j < evs.len() && evs[i] != 0 && evs[j] != 0 ==> evs[i] <= evs[j],
        forall|i: int| 0 <= i < evs.len() && evs[i] != 0 ==> init <= evs[i],
    ensures
        stored_at(init, evs, k) <= stored_at(init, evs, l),
    decreases l - k,
{
    if k < l {
        lemma_monotone_step(init, evs, l - 1);
        lemma_monotone_range(init, evs, k, l - 1);
    }
}

} // verus!
