//! The process supervisor's handle registry: a mapping from job id to a
//! live handle, with at most one handle per id at any instant. The
//! handle type is a parameter; the host instantiates it with its child
//! process type and performs the actual signalling itself.

use vstd::prelude::*;
use crate::strutil::str_eq;

verus! {

pub struct ProcessRegistry<H> {
    entries: Vec<(String, H)>,
}

impl<H> ProcessRegistry<H> {
    /// The registered ids, in insertion order.
    pub closed spec fn ids(self) -> Seq<Seq<char>> {
        self.entries@.map_values(|e: (String, H)| e.0@)
    }

    /// The registered handles, in insertion order.
    pub closed spec fn handles(self) -> Seq<H> {
        self.entries@.map_values(|e: (String, H)| e.1)
    }

    /// No id is registered twice.
    pub open spec fn wf(self) -> bool {
        forall|i: int, j: int|
            0 <= i < j < self.ids().len() ==> self.ids()[i] != self.ids()[j]
    }

    pub open spec fn spec_contains(self, id: Seq<char>) -> bool {
        exists|i: int| 0 <= i < self.ids().len() && self.ids()[i] == id
    }

    /// The index of a registered id (meaningful only when registered).
    pub open spec fn index_of(self, id: Seq<char>) -> int {
        choose|i: int| 0 <= i < self.ids().len() && self.ids()[i] == id
    }

    /// The handle registered for an id (meaningful only when registered).
    pub open spec fn handle_of(self, id: Seq<char>) -> H {
        self.handles()[self.index_of(id)]
    }

    pub fn new() -> (r: ProcessRegistry<H>)
        ensures
            r.wf(),
            r.ids().len() == 0,
            forall|id: Seq<char>| !r.spec_contains(id),
    {
        ProcessRegistry { entries: Vec::new() }
    }

    pub fn len(&self) -> (n: usize)
        ensures
            n == self.ids().len(),
    {
        self.entries.len()
    }

    /// The position of `id` among the entries, if it is registered.
    fn find(&self, id: &str) -> (r: Option<usize>)
        ensures
            match r {
                Some(i) => i < self.ids().len() && self.ids()[i as int] == id@,
                None => !self.spec_contains(id@),
            },
    {
        let n = self.entries.len();
        let mut i: usize = 0;
        while i < n
            invariant
                i <= n,
                n == self.ids().len(),
                forall|k: int| 0 <= k < i ==> self.ids()[k] != id@,
            decreases n - i,
        {
            let e = &self.entries[i];
            if str_eq(e.0.as_str(), id) {
                return Some(i);
            }
            i += 1;
        }
        None
    }

    pub fn contains(&self, id: &str) -> (r: bool)
        ensures
            r == self.spec_contains(id@),
    {
        self.find(id).is_some()
    }

    /// Registers a handle for `id`, refusing when one is already
    /// registered: a handle is only ever inserted after confirming, in
    /// the same registry operation, that none exists.
    pub fn insert(&mut self, id: String, handle: H) -> (r: Result<(), H>)
        requires
            old(self).wf(),
        ensures
            final(self).wf(),
            old(self).spec_contains(id@) ==> (r matches Err(h) && h == handle && *final(self)
                == *old(self)),
            !old(self).spec_contains(id@) ==> {
                &&& r is Ok
                &&& final(self).ids() == old(self).ids().push(id@)
                &&& final(self).handles() == old(self).handles().push(handle)
                &&& final(self).spec_contains(id@)
                &&& final(self).handle_of(id@) == handle
            },
    {
        if self.find(id.as_str()).is_some() {
            return Err(handle);
        }
        let ghost old_ids = self.ids();
        let ghost old_handles = self.handles();
        self.entries.push((id, handle));
        proof {
            assert(self.ids() =~= old_ids.push(id@));
            assert(self.handles() =~= old_handles.push(handle));
            let n = self.ids().len() - 1;
            assert(0 <= n < self.ids().len() && self.ids()[n] == id@);
            let i = self.index_of(id@);
            assert(self.ids()[i] == id@);
            assert(i == n);
        }
        Ok(())
    }

    /// Removes and returns the handle for `id`; a no-op when none is
    /// registered, so the caller's kill path is idempotent.
    pub fn take(&mut self, id: &str) -> (r: Option<H>)
        requires
            old(self).wf(),
        ensures
            final(self).wf(),
            !final(self).spec_contains(id@),
            match r {
                Some(h) => {
                    &&& old(self).spec_contains(id@)
                    &&& h == old(self).handle_of(id@)
                    &&& final(self).ids() == old(self).ids().remove(old(self).index_of(id@))
                    &&& final(self).handles() == old(self).handles().remove(
                        old(self).index_of(id@),
                    )
                },
                None => !old(self).spec_contains(id@) && *final(self) == *old(self),
            },
            forall|other: Seq<char>|
                other != id@ ==> final(self).spec_contains(other) == old(self).spec_contains(
                    other,
                ),
    {
        match self.find(id) {
            Some(i) => {
                let ghost old_ids = self.ids();
                let ghost old_handles = self.handles();
                let e = self.entries.remove(i);
                proof {
                    assert(self.ids() =~= old_ids.remove(i as int));
                    assert(self.handles() =~= old_handles.remove(i as int));
                    let j = old(self).index_of(id@);
                    assert(old_ids[j] == id@);
                    assert(j == i);
                    assert forall|k: int| 0 <= k < self.ids().len() implies self.ids()[k]
                        != id@ by {
                        if k < i {
                            assert(self.ids()[k] == old_ids[k]);
                        } else {
                            assert(self.ids()[k] == old_ids[k + 1]);
                        }
                    }
                    assert forall|other: Seq<char>|
                        other != id@ && old(self).spec_contains(other) implies self.spec_contains(
                        other,
                    ) by {
                        let k = choose|k: int|
                            0 <= k < old_ids.len() && old_ids[k] == other;
                        if k < i {
                            assert(self.ids()[k] == other);
                        } else {
                            assert(k > i);
                            assert(self.ids()[k - 1] == other);
                        }
                    }
                    assert forall|other: Seq<char>|
                        other != id@ && self.spec_contains(other) implies old(self).spec_contains(
                        other,
                    ) by {
                        let k = choose|k: int|
                            0 <= k < self.ids().len() && self.ids()[k] == other;
                        if k < i {
                            assert(old_ids[k] == other);
                        } else {
                            assert(old_ids[k + 1] == other);
                        }
                    }
                }
                Some(e.1)
            },
            None => None,
        }
    }

    /// Empties the registry, handing every entry back for the host to
    /// kill; used only at process-wide shutdown.
    pub fn drain(&mut self) -> (r: Vec<(String, H)>)
        requires
            old(self).wf(),
        ensures
            final(self).wf(),
            final(self).ids().len() == 0,
            forall|id: Seq<char>| !final(self).spec_contains(id),
            r@.map_values(|e: (String, H)| e.0@) == old(self).ids(),
            r@.map_values(|e: (String, H)| e.1) == old(self).handles(),
    {
        let mut out: Vec<(String, H)> = Vec::new();
        core::mem::swap(&mut out, &mut self.entries);
        out
    }
}

/// At most one handle exists per job id at any observed instant: in a
/// well-formed registry, two positions holding the same id are the same
/// position. Every operation above preserves well-formedness, and
/// `insert` refuses an id that is already registered, so the property
/// holds across any interleaving of registry operations.
pub proof fn lemma_at_most_one_handle<H>(r: ProcessRegistry<H>, i: int, j: int)
    requires
        r.wf(),
        0 <= i < r.ids().len(),
        0 <= j < r.ids().len(),
        r.ids()[i] == r.ids()[j],
    ensures
        i == j,
{
}

} // verus!
