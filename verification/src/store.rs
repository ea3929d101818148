//! The persistence gateway, modelled as three row stores: jobs keyed by
//! job id, history keyed by job id, and settings keyed by name. The
//! host mirrors these rows into its database; every decision about what
//! a row holds is made here.

use vstd::prelude::*;
use crate::jobs::{Job, JobKind, JobStatus, Metadata};
use crate::table::Table;

verus! {

/// An immutable snapshot taken exactly once when a job first completes.
pub struct HistoryEntry {
    pub id: String,
    pub source: String,
    pub output: String,
    pub kind: JobKind,
    pub size: u64,
    pub completed_at: u64,
    pub metadata: Metadata,
}

impl HistoryEntry {
    pub fn duplicate(&self) -> (r: HistoryEntry)
        ensures
            r == *self,
    {
        HistoryEntry {
            id: self.id.clone(),
            source: self.source.clone(),
            output: self.output.clone(),
            kind: self.kind,
            size: self.size,
            completed_at: self.completed_at,
            metadata: self.metadata.duplicate(),
        }
    }
}

/// The whole persistent state the core keeps.
pub struct Gateway {
    pub jobs: Table<Job>,
    pub history: Table<HistoryEntry>,
    pub settings: Table<String>,
}

/// Every job row is keyed by the id the job itself carries, and every
/// history row by the id of the snapshotted job.
pub open spec fn gateway_wf(g: Gateway) -> bool {
    &&& g.jobs.wf()
    &&& forall|i: int| 0 <= i < g.jobs.len() ==> (#[trigger] g.jobs.values()[i]).id@ == g.jobs.keys()[i]
    &&& forall|i: int| 0 <= i < g.jobs.len() ==> (#[trigger] g.jobs.values()[i]).wf()
    &&& g.history.wf()
    &&& forall|i: int|
        0 <= i < g.history.len() ==> (#[trigger] g.history.values()[i]).id@ == g.history.keys()[i]
    &&& g.settings.wf()
}

/// A job row that is shown among the active downloads: everything not
/// yet completed.
pub open spec fn is_active(j: Job) -> bool {
    !(j.status is Completed)
}

pub open spec fn active_pred() -> spec_fn(Job) -> bool {
    |j: Job| is_active(j)
}

pub open spec fn downloading_pred() -> spec_fn(Job) -> bool {
    |j: Job| j.status is Downloading
}

impl Gateway {
    pub fn new() -> (r: Gateway)
        ensures
            gateway_wf(r),
            r.jobs.len() == 0,
            r.history.len() == 0,
            r.settings.len() == 0,
            forall|id: Seq<char>| !r.jobs.spec_contains(id),
            forall|id: Seq<char>| !r.history.spec_contains(id),
            forall|key: Seq<char>| !r.settings.spec_contains(key),
    {
        Gateway { jobs: Table::new(), history: Table::new(), settings: Table::new() }
    }

    /// Stores a freshly created job under its id; the id must be new.
    pub fn create_job(&mut self, job: Job) -> (r: Result<(), Job>)
        requires
            gateway_wf(*old(self)),
            job.wf(),
        ensures
            gateway_wf(*final(self)),
            final(self).history == old(self).history,
            final(self).settings == old(self).settings,
            old(self).jobs.spec_contains(job.id@) ==> (r is Err && *final(self) == *old(self)),
            !old(self).jobs.spec_contains(job.id@) ==> {
                &&& r is Ok
                &&& final(self).jobs.spec_contains(job.id@)
                &&& final(self).jobs.value_of(job.id@) == job
                &&& forall|other: Seq<char>|
                    other != job.id@ ==> final(self).jobs.spec_contains(other) == old(self).jobs.spec_contains(other)
                &&& forall|other: Seq<char>|
                    other != job.id@ && old(self).jobs.spec_contains(other) ==> final(self).jobs.value_of(other) == old(self).jobs.value_of(other)
            },
    {
        let key = job.id.clone();
        let ghost jv = job;
        match self.jobs.insert_new(key, job) {
            Ok(()) => {
                proof {
                    assert forall|i: int| 0 <= i < self.jobs.len() implies (
                    #[trigger] self.jobs.values()[i]).id@ == self.jobs.keys()[i] && (
                    #[trigger] self.jobs.values()[i]).wf() by {
                        if i < self.jobs.len() - 1 {
                            assert(self.jobs.values()[i] == old(self).jobs.values()[i]);
                            assert(self.jobs.keys()[i] == old(self).jobs.keys()[i]);
                        } else {
                            assert(self.jobs.values()[i] == jv);
                        }
                    }
                }
                Ok(())
            },
            Err(j) => Err(j),
        }
    }

    /// A copy of the job row under `id`, if any.
    pub fn read_job(&self, id: &str) -> (r: Option<Job>)
        requires
            gateway_wf(*self),
        ensures
            match r {
                Some(j) => self.jobs.spec_contains(id@) && j == self.jobs.value_of(id@),
                None => !self.jobs.spec_contains(id@),
            },
    {
        match self.jobs.get(id) {
            Some(j) => Some(j.duplicate()),
            None => None,
        }
    }

    /// Overwrites the row of a job with the same id.
    pub fn update_job(&mut self, job: Job)
        requires
            gateway_wf(*old(self)),
            job.wf(),
        ensures
            gateway_wf(*final(self)),
            final(self).history == old(self).history,
            final(self).settings == old(self).settings,
            final(self).jobs.spec_contains(job.id@),
            final(self).jobs.value_of(job.id@) == job,
            forall|other: Seq<char>|
                other != job.id@ ==> final(self).jobs.spec_contains(other) == old(self).jobs.spec_contains(other),
            forall|other: Seq<char>|
                other != job.id@ && old(self).jobs.spec_contains(other) ==> final(self).jobs.value_of(other) == old(self).jobs.value_of(other),
    {
        let key = job.id.clone();
        let ghost jv = job;
        self.jobs.put(key.as_str(), job);
        proof {
            assert forall|i: int| 0 <= i < self.jobs.len() implies (
            #[trigger] self.jobs.values()[i]).id@ == self.jobs.keys()[i] && (
            #[trigger] self.jobs.values()[i]).wf() by {
                if old(self).jobs.spec_contains(jv.id@) {
                    assert(self.jobs.keys() == old(self).jobs.keys());
                    let j = self.jobs.index_of(jv.id@);
                    assert(self.jobs.keys()[j] == jv.id@);
                    if i == j {
                        assert(self.jobs.values()[i] == jv);
                    } else {
                        let k = self.jobs.keys()[i];
                        assert(k != jv.id@);
                        assert(old(self).jobs.spec_contains(k));
                        let m = old(self).jobs.index_of(k);
                        assert(old(self).jobs.keys()[m] == k);
                        assert(m == i);
                        assert(self.jobs.value_of(k) == old(self).jobs.value_of(k));
                        let m2 = self.jobs.index_of(k);
                        assert(m2 == i);
                    }
                } else {
                    if i < self.jobs.len() - 1 {
                        let k = old(self).jobs.keys()[i];
                        assert(self.jobs.keys()[i] == k);
                        assert(old(self).jobs.spec_contains(k));
                        assert(k != jv.id@);
                        let m = old(self).jobs.index_of(k);
                        assert(old(self).jobs.keys()[m] == k);
                        assert(m == i);
                        assert(self.jobs.value_of(k) == old(self).jobs.value_of(k));
                        let m2 = self.jobs.index_of(k);
                        assert(self.jobs.keys()[m2] == k);
                        assert(m2 == i);
                        assert(self.jobs.values()[i] == old(self).jobs.values()[i]);
                    } else {
                        assert(self.jobs.keys()[i] == jv.id@);
                        let j2 = self.jobs.index_of(jv.id@);
                        assert(self.jobs.keys()[j2] == jv.id@);
                        assert(j2 == i);
                        assert(self.jobs.values()[i] == jv);
                    }
                }
            }
        }
    }

    /// Deletes a job row. The history rows are untouched: a history
    /// entry, once written, survives the removal of its job. Returns
    /// the removed job for the host's cleanup of temporary artifacts.
    pub fn remove_job(&mut self, id: &str) -> (r: Option<Job>)
        requires
            gateway_wf(*old(self)),
        ensures
            gateway_wf(*final(self)),
            final(self).history == old(self).history,
            final(self).settings == old(self).settings,
            !final(self).jobs.spec_contains(id@),
            match r {
                Some(j) => old(self).jobs.spec_contains(id@) && j == old(self).jobs.value_of(id@),
                None => !old(self).jobs.spec_contains(id@) && final(self).jobs == old(self).jobs,
            },
            forall|other: Seq<char>|
                other != id@ ==> final(self).jobs.spec_contains(other) == old(self).jobs.spec_contains(other),
            forall|other: Seq<char>|
                other != id@ && old(self).jobs.spec_contains(other) ==> final(self).jobs.value_of(
                    other,
                ) == old(self).jobs.value_of(other),
    {
        let r = self.jobs.remove(id);
        proof {
            assert forall|i: int| 0 <= i < self.jobs.len() implies (
            #[trigger] self.jobs.values()[i]).id@ == self.jobs.keys()[i] && (
            #[trigger] self.jobs.values()[i]).wf() by {
                let k = self.jobs.keys()[i];
                assert(self.jobs.spec_contains(k));
                if k == id@ {
                    assert(false);
                } else {
                    assert(old(self).jobs.spec_contains(k));
                    let m = old(self).jobs.index_of(k);
                    assert(old(self).jobs.keys()[m] == k);
                    assert(self.jobs.value_of(k) == old(self).jobs.value_of(k));
                    let i2 = self.jobs.index_of(k);
                    assert(self.jobs.keys()[i2] == k);
                    assert(i2 == i);
                    assert(old(self).jobs.value_of(k).id@ == k);
                }
            }
        }
        r
    }

    /// Writes the history snapshot for a completed job exactly once:
    /// a second completion of the same id changes nothing.
    pub fn add_history_if_absent(&mut self, entry: HistoryEntry)
        requires
            gateway_wf(*old(self)),
        ensures
            gateway_wf(*final(self)),
            final(self).jobs == old(self).jobs,
            final(self).settings == old(self).settings,
            final(self).history.spec_contains(entry.id@),
            old(self).history.spec_contains(entry.id@) ==> final(self).history == old(self).history,
            !old(self).history.spec_contains(entry.id@) ==> final(self).history.value_of(entry.id@)
                == entry,
            forall|other: Seq<char>|
                other != entry.id@ ==> final(self).history.spec_contains(other) == old(self).history.spec_contains(other),
            forall|other: Seq<char>|
                other != entry.id@ && old(self).history.spec_contains(other) ==> final(self).history.value_of(other) == old(self).history.value_of(other),
    {
        let key = entry.id.clone();
        let ghost ev = entry;
        match self.history.insert_new(key, entry) {
            Ok(()) => {
                proof {
                    assert forall|i: int| 0 <= i < self.history.len() implies (
                    #[trigger] self.history.values()[i]).id@ == self.history.keys()[i] by {
                        if i < self.history.len() - 1 {
                            assert(self.history.values()[i] == old(self).history.values()[i]);
                            assert(self.history.keys()[i] == old(self).history.keys()[i]);
                        } else {
                            assert(self.history.values()[i] == ev);
                        }
                    }
                }
            },
            Err(_) => {},
        }
    }

    /// The bulk clear: the one mutation history rows allow.
    pub fn clear_history(&mut self)
        requires
            gateway_wf(*old(self)),
        ensures
            gateway_wf(*final(self)),
            final(self).jobs == old(self).jobs,
            final(self).settings == old(self).settings,
            final(self).history.len() == 0,
            forall|id: Seq<char>| !final(self).history.spec_contains(id),
    {
        self.history.clear();
    }

    /// Stores one raw settings row.
    pub fn set_setting(&mut self, key: &str, value: String)
        requires
            gateway_wf(*old(self)),
        ensures
            gateway_wf(*final(self)),
            final(self).jobs == old(self).jobs,
            final(self).history == old(self).history,
            final(self).settings.spec_contains(key@),
            final(self).settings.value_of(key@) == value,
            forall|other: Seq<char>|
                other != key@ ==> final(self).settings.spec_contains(other) == old(self).settings.spec_contains(other),
            forall|other: Seq<char>|
                other != key@ && old(self).settings.spec_contains(other) ==> final(self).settings.value_of(other) == old(self).settings.value_of(other),
    {
        self.settings.put(key, value);
    }

    /// Reads one raw settings row.
    pub fn get_setting(&self, key: &str) -> (r: Option<&String>)
        requires
            gateway_wf(*self),
        ensures
            match r {
                Some(v) => self.settings.spec_contains(key@) && *v == self.settings.value_of(key@),
                None => !self.settings.spec_contains(key@),
            },
    {
        self.settings.get(key)
    }

    /// The jobs shown as active: everything not completed, newest
    /// first (the reverse of creation order).
    pub fn active_jobs(&self) -> (r: Vec<Job>)
        requires
            gateway_wf(*self),
        ensures
            r@.len() == self.jobs.values().filter(active_pred()).len(),
            forall|k: int|
                0 <= k < r@.len() ==> r@[k] == self.jobs.values().filter(active_pred())[r@.len() - 1
                    - k],
    {
        self.filtered_jobs_newest_first()
    }

    /// The ids of the jobs that were mid-flight, oldest first: what the
    /// resume coordinator walks at startup.
    pub fn downloading_ids(&self) -> (r: Vec<String>)
        requires
            gateway_wf(*self),
        ensures
            r@.map_values(|s: String| s@) == self.jobs.values().filter(downloading_pred())
                .map_values(|j: Job| j.id@),
    {
        let ghost pred = downloading_pred();
        let n = self.jobs.length();
        let mut out: Vec<String> = Vec::new();
        proof {
            assert(self.jobs.values().subrange(0, 0).filter(pred) =~= Seq::<Job>::empty());
            assert(out@.map_values(|s: String| s@) =~= Seq::<Job>::empty().map_values(
                |j: Job| j.id@,
            ));
        }
        let mut i: usize = 0;
        while i < n
            invariant
                i <= n,
                n == self.jobs.len(),
                gateway_wf(*self),
                pred == downloading_pred(),
                out@.map_values(|s: String| s@) == self.jobs.values().subrange(0, i as int).filter(
                    pred,
                ).map_values(|j: Job| j.id@),
            decreases n - i,
        {
            let ghost prev = self.jobs.values().subrange(0, i as int);
            proof {
                reveal(Seq::filter);
                assert(self.jobs.values().subrange(0, i + 1).drop_last() =~= prev);
                assert(self.jobs.values().subrange(0, i + 1).last() == self.jobs.values()[
                    i as int]);
            }
            let e = self.jobs.pair_at(i);
            let is_downloading = matches!(e.1.status, JobStatus::Downloading);
            if is_downloading {
                let ghost before = out@.map_values(|s: String| s@);
                out.push(e.1.id.clone());
                proof {
                    assert(out@.map_values(|s: String| s@) =~= before.push(e.1.id@));
                    assert(e.1.id@ == self.jobs.keys()[i as int]);
                    let flt = self.jobs.values().subrange(0, i + 1).filter(pred);
                    assert(flt == prev.filter(pred).push(self.jobs.values()[i as int]));
                    assert(flt.map_values(|j: Job| j.id@) =~= prev.filter(pred).map_values(
                        |j: Job| j.id@,
                    ).push(self.jobs.values()[i as int].id@));
                }
            } else {
                proof {
                    assert(self.jobs.values().subrange(0, i + 1).filter(pred) == prev.filter(
                        pred,
                    ));
                }
            }
            i += 1;
        }
        proof {
            assert(self.jobs.values().subrange(0, n as int) =~= self.jobs.values());
        }
        out
    }

    /// Collects the not-completed jobs in creation order, then reverses
    /// them so the newest stands first.
    fn filtered_jobs_newest_first(&self) -> (r: Vec<Job>)
        requires
            gateway_wf(*self),
        ensures
            r@.len() == self.jobs.values().filter(active_pred()).len(),
            forall|k: int|
                0 <= k < r@.len() ==> r@[k] == self.jobs.values().filter(active_pred())[r@.len() - 1
                    - k],
    {
        let ghost pred = active_pred();
        let n = self.jobs.length();
        let mut tmp: Vec<Job> = Vec::new();
        proof {
            assert(self.jobs.values().subrange(0, 0).filter(pred) =~= Seq::<Job>::empty());
            assert(tmp@ =~= Seq::<Job>::empty());
        }
        let mut i: usize = 0;
        while i < n
            invariant
                i <= n,
                n == self.jobs.len(),
                gateway_wf(*self),
                pred == active_pred(),
                tmp@ == self.jobs.values().subrange(0, i as int).filter(pred),
            decreases n - i,
        {
            let ghost prev = self.jobs.values().subrange(0, i as int);
            proof {
                reveal(Seq::filter);
                assert(self.jobs.values().subrange(0, i + 1).drop_last() =~= prev);
                assert(self.jobs.values().subrange(0, i + 1).last() == self.jobs.values()[
                    i as int]);
            }
            let e = self.jobs.pair_at(i);
            let keep = !matches!(e.1.status, JobStatus::Completed);
            if keep {
                tmp.push(e.1.duplicate());
                proof {
                    assert(self.jobs.values().subrange(0, i + 1).filter(pred) == prev.filter(
                        pred,
                    ).push(self.jobs.values()[i as int]));
                }
            } else {
                proof {
                    assert(self.jobs.values().subrange(0, i + 1).filter(pred) == prev.filter(
                        pred,
                    ));
                }
            }
            i += 1;
        }
        proof {
            assert(self.jobs.values().subrange(0, n as int) =~= self.jobs.values());
        }
        let ghost flt = self.jobs.values().filter(pred);
        let mut out: Vec<Job> = Vec::new();
        while tmp.len() > 0
            invariant
                out@.len() + tmp@.len() == flt.len(),
                tmp@ == flt.subrange(0, tmp@.len() as int),
                forall|k: int| 0 <= k < out@.len() ==> out@[k] == flt[flt.len() - 1 - k],
            decreases tmp.len(),
        {
            let x = tmp.pop().unwrap();
            out.push(x);
            proof {
                assert(tmp@ =~= flt.subrange(0, tmp@.len() as int));
            }
        }
        out
    }

    /// Marks every mid-flight job paused: the process-wide shutdown
    /// path, after which no job may look alive on the next start.
    pub fn pause_all_downloading(&mut self)
        requires
            gateway_wf(*old(self)),
        ensures
            gateway_wf(*final(self)),
            final(self).history == old(self).history,
            final(self).settings == old(self).settings,
            final(self).jobs.keys() == old(self).jobs.keys(),
            final(self).jobs.values().len() == old(self).jobs.values().len(),
            forall|i: int|
                0 <= i < old(self).jobs.values().len() ==> final(self).jobs.values()[i] == (
                if old(self).jobs.values()[i].status is Downloading {
                    pause_stamp(old(self).jobs.values()[i])
                } else {
                    old(self).jobs.values()[i]
                }),
    {
        let n = self.jobs.length();
        let mut i: usize = 0;
        while i < n
            invariant
                i <= n,
                n == self.jobs.len(),
                gateway_wf(*self),
                self.history == old(self).history,
                self.settings == old(self).settings,
                self.jobs.keys() == old(self).jobs.keys(),
                self.jobs.values().len() == old(self).jobs.values().len(),
                forall|k: int|
                    i <= k < n ==> self.jobs.values()[k] == old(self).jobs.values()[k],
                forall|k: int|
                    0 <= k < i ==> self.jobs.values()[k] == (
                    if old(self).jobs.values()[k].status is Downloading {
                        pause_stamp(old(self).jobs.values()[k])
                    } else {
                        old(self).jobs.values()[k]
                    }),
            decreases n - i,
        {
            let e = self.jobs.pair_at(i);
            let key = e.0.clone();
            if matches!(e.1.status, JobStatus::Downloading) {
                let mut j = e.1.duplicate();
                j.status = JobStatus::Paused;
                let ghost old_jobs = self.jobs;
                let ghost jv = j;
                proof {
                    assert(old_jobs.values()[i as int] == old(self).jobs.values()[i as int]);
                    assert(old(self).jobs.values()[i as int].status is Downloading);
                    assert(jv == pause_stamp(old(self).jobs.values()[i as int]));
                }
                self.jobs.put(key.as_str(), j);
                proof {
                    assert(old_jobs.spec_contains(old_jobs.keys()[i as int]));
                    assert(self.jobs.keys() == old_jobs.keys());
                    let m = self.jobs.index_of(old_jobs.keys()[i as int]);
                    assert(self.jobs.keys()[m] == old_jobs.keys()[i as int]);
                    assert(m == i);
                    assert(self.jobs.values()[i as int] == jv);
                    assert forall|k: int|
                        0 <= k < n && k != i implies self.jobs.values()[k] == old_jobs.values()[k] by {
                        let kk = old_jobs.keys()[k];
                        assert(kk != old_jobs.keys()[i as int]);
                        assert(old_jobs.spec_contains(kk));
                        assert(self.jobs.value_of(kk) == old_jobs.value_of(kk));
                        let m1 = old_jobs.index_of(kk);
                        assert(old_jobs.keys()[m1] == kk);
                        assert(m1 == k);
                        let m2 = self.jobs.index_of(kk);
                        assert(self.jobs.keys()[m2] == kk);
                        assert(m2 == k);
                    }
                    assert forall|k: int| 0 <= k < self.jobs.len() implies (
                    #[trigger] self.jobs.values()[k]).id@ == self.jobs.keys()[k] && (
                    #[trigger] self.jobs.values()[k]).wf() by {
                        if k == i {
                            assert(self.jobs.values()[k] == jv);
                            assert(old_jobs.values()[i as int].wf());
                        } else {
                            assert(self.jobs.values()[k] == old_jobs.values()[k]);
                        }
                    }
                    assert forall|k: int| 0 <= k < i + 1 implies self.jobs.values()[k] == (
                    if old(self).jobs.values()[k].status is Downloading {
                        pause_stamp(old(self).jobs.values()[k])
                    } else {
                        old(self).jobs.values()[k]
                    }) by {
                        if k == i {
                            assert(self.jobs.values()[k] == jv);
                        } else {
                            assert(self.jobs.values()[k] == old_jobs.values()[k]);
                            assert(old_jobs.values()[k] == (
                            if old(self).jobs.values()[k].status is Downloading {
                                pause_stamp(old(self).jobs.values()[k])
                            } else {
                                old(self).jobs.values()[k]
                            }));
                        }
                    }
                }
            }
            i += 1;
        }
    }
}

/// A downloading job as the shutdown path leaves it: merely re-marked
/// paused, with everything else intact.
pub open spec fn pause_stamp(j: Job) -> Job {
    Job { status: JobStatus::Paused, ..j }
}

/// One row of the history view: a finished download, or a torrent
/// still seeding after completion.
pub struct HistoryItem {
    pub id: String,
    pub source: String,
    pub output: String,
    pub kind: JobKind,
    pub size: u64,
    pub completed_at: u64,
    pub is_seeding: bool,
}

/// A job row that overrides its history row in the view: a torrent
/// kept alive for seeding.
pub open spec fn seeding_torrent(g: Gateway, id: Seq<char>) -> bool {
    g.jobs.spec_contains(id) && g.jobs.value_of(id).status is Seeding && g.jobs.value_of(
        id,
    ).kind is Torrent
}

/// The size shown for a job-backed item: the reported total, or what
/// was downloaded when no total was ever learned.
pub open spec fn job_view_size(j: Job) -> u64 {
    if j.total > 0 {
        j.total
    } else {
        j.downloaded
    }
}

pub open spec fn item_matches_entry(it: HistoryItem, e: HistoryEntry) -> bool {
    &&& it.id == e.id
    &&& it.source == e.source
    &&& it.output == e.output
    &&& it.kind == e.kind
    &&& it.size == e.size
    &&& it.completed_at == e.completed_at
    &&& !it.is_seeding
}

pub open spec fn item_matches_job(it: HistoryItem, j: Job, completed_at: u64) -> bool {
    &&& it.id == j.id
    &&& it.source == j.source
    &&& it.output == j.output
    &&& it.kind == j.kind
    &&& it.size == job_view_size(j)
    &&& it.completed_at == completed_at
    &&& it.is_seeding
}

impl Gateway {
    /// The history view: every history snapshot, with a torrent that
    /// is still seeding shown live (its row overrides the snapshot of
    /// the same id, keeping the snapshot's completion instant).
    pub fn history_overview(&self) -> (r: Table<HistoryItem>)
        requires
            gateway_wf(*self),
        ensures
            r.wf(),
            forall|id: Seq<char>|
                #[trigger] r.spec_contains(id) <==> (self.history.spec_contains(id)
                    || seeding_torrent(*self, id)),
            forall|id: Seq<char>|
                r.spec_contains(id) && seeding_torrent(*self, id) ==> item_matches_job(
                    #[trigger] r.value_of(id),
                    self.jobs.value_of(id),
                    if self.history.spec_contains(id) {
                        self.history.value_of(id).completed_at
                    } else {
                        0
                    },
                ),
            forall|id: Seq<char>|
                r.spec_contains(id) && !seeding_torrent(*self, id) ==> item_matches_entry(
                    #[trigger] r.value_of(id),
                    self.history.value_of(id),
                ),
    {
        let mut out: Table<HistoryItem> = Table::new();
        let hn = self.history.length();
        let mut i: usize = 0;
        while i < hn
            invariant
                i <= hn,
                hn == self.history.len(),
                gateway_wf(*self),
                out.wf(),
                forall|id: Seq<char>|
                    #[trigger] out.spec_contains(id) <==> exists|k: int|
                        0 <= k < i && self.history.keys()[k] == id,
                forall|id: Seq<char>|
                    out.spec_contains(id) ==> self.history.spec_contains(id)
                        && item_matches_entry(#[trigger] out.value_of(id), self.history.value_of(
                        id,
                    )),
            decreases hn - i,
        {
            let e = self.history.pair_at(i);
            let item = HistoryItem {
                id: e.1.id.clone(),
                source: e.1.source.clone(),
                output: e.1.output.clone(),
                kind: e.1.kind,
                size: e.1.size,
                completed_at: e.1.completed_at,
                is_seeding: false,
            };
            proof {
                let m = self.history.index_of(self.history.keys()[i as int]);
                assert(self.history.keys()[m] == self.history.keys()[i as int]);
                assert(m == i);
                assert(e.1.id@ == self.history.keys()[i as int]);
            }
            out.put(e.1.id.as_str(), item);
            i += 1;
        }
        proof {
            assert forall|id: Seq<char>|
                #[trigger] out.spec_contains(id) <==> self.history.spec_contains(id) by {}
        }
        let jn = self.jobs.length();
        let mut j: usize = 0;
        while j < jn
            invariant
                j <= jn,
                jn == self.jobs.len(),
                gateway_wf(*self),
                out.wf(),
                forall|id: Seq<char>|
                    #[trigger] out.spec_contains(id) <==> (self.history.spec_contains(id) || (
                    exists|k: int|
                        0 <= k < j && self.jobs.keys()[k] == id && seeding_torrent(*self, id))),
                forall|id: Seq<char>|
                    out.spec_contains(id) && seeding_torrent(*self, id) && (exists|k: int|
                        0 <= k < j && self.jobs.keys()[k] == id) ==> item_matches_job(
                        #[trigger] out.value_of(id),
                        self.jobs.value_of(id),
                        if self.history.spec_contains(id) {
                            self.history.value_of(id).completed_at
                        } else {
                            0
                        },
                    ),
                forall|id: Seq<char>|
                    out.spec_contains(id) && !(seeding_torrent(*self, id) && (exists|k: int|
                        0 <= k < j && self.jobs.keys()[k] == id)) ==> item_matches_entry(
                        #[trigger] out.value_of(id),
                        self.history.value_of(id),
                    ),
            decreases jn - j,
        {
            let e = self.jobs.pair_at(j);
            let is_seeding_torrent = matches!(e.1.status, JobStatus::Seeding) && matches!(
                e.1.kind,
                JobKind::Torrent,
            );
            proof {
                let m = self.jobs.index_of(self.jobs.keys()[j as int]);
                assert(self.jobs.keys()[m] == self.jobs.keys()[j as int]);
                assert(m == j);
                assert(e.1.id@ == self.jobs.keys()[j as int]);
                assert(e.1 == self.jobs.value_of(self.jobs.keys()[j as int]));
            }
            if is_seeding_torrent {
                let completed_at = match out.get(e.1.id.as_str()) {
                    Some(prev) => prev.completed_at,
                    None => 0,
                };
                let item = HistoryItem {
                    id: e.1.id.clone(),
                    source: e.1.source.clone(),
                    output: e.1.output.clone(),
                    kind: e.1.kind,
                    size: if e.1.total > 0 {
                        e.1.total
                    } else {
                        e.1.downloaded
                    },
                    completed_at,
                    is_seeding: true,
                };
                out.put(e.1.id.as_str(), item);
            }
            j += 1;
        }
        out
    }
}

} // verus!
