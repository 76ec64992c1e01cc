//! The process registry: the shared table of run id to live process
//! handle that makes mid-flight cancellation possible.
//!
//! The registry is generic in the handle type: the caller that owns
//! the real child-process handles wraps the registry in its mutual
//! exclusion lock and stores whatever handle type it shares with the
//! run's executor. Every operation is a short map operation; the
//! abstract view is a [`Map`] from run id to handle.
//!
//! Registration silently replaces any prior entry for the same run
//! id — documented overwrite semantics, not an error
//! ([`lemma_register_overwrites`]). Cancellation looks the handle up
//! so the caller can deliver the kill; removing the entry stays the
//! run executor's own responsibility. Cancelling an id that is not
//! registered reports a not-found outcome, the normal result of the
//! race between natural completion and a cancel request.

use vstd::prelude::*;

use crate::error::AppError;
use crate::text::str_eq;

verus! {

/// No run id occurs twice among the entries.
pub open spec fn unique_keys<H>(s: Seq<(String, H)>) -> bool {
    forall|i: int, j: int| 0 <= i < j < s.len() ==> s[i].0@ != s[j].0@
}

/// The map an entry list denotes; later entries would win, though a
/// well-formed registry never holds a key twice.
pub open spec fn entries_map<H>(s: Seq<(String, H)>) -> Map<Seq<char>, H>
    decreases s.len(),
{
    if s.len() == 0 {
        Map::empty()
    } else {
        entries_map(s.drop_last()).insert(s.last().0@, s.last().1)
    }
}

proof fn lemma_entries_map_contains<H>(s: Seq<(String, H)>, k: Seq<char>)
    ensures
        entries_map(s).contains_key(k) <==> exists|i: int|
            0 <= i < s.len() && #[trigger] s[i].0@ == k,
    decreases s.len(),
{
    if s.len() > 0 {
        lemma_entries_map_contains(s.drop_last(), k);
        if s.last().0@ == k {
            assert(s[s.len() - 1].0@ == k);
        } else {
            if entries_map(s).contains_key(k) {
                let i = choose|i: int| 0 <= i < s.drop_last().len() && #[trigger] s.drop_last()[i].0@
                    == k;
                assert(s[i].0@ == k);
            }
            if exists|i: int| 0 <= i < s.len() && #[trigger] s[i].0@ == k {
                let i = choose|i: int| 0 <= i < s.len() && #[trigger] s[i].0@ == k;
                assert(i < s.len() - 1);
                assert(s.drop_last()[i].0@ == k);
            }
        }
    }
}

proof fn lemma_entries_map_index<H>(s: Seq<(String, H)>, i: int)
    requires
        unique_keys(s),
        0 <= i < s.len(),
    ensures
        entries_map(s).contains_key(s[i].0@),
        entries_map(s)[s[i].0@] == s[i].1,
    decreases s.len(),
{
    if i == s.len() - 1 {
    } else {
        assert(unique_keys(s.drop_last())) by {
            assert(forall|a: int, b: int|
                0 <= a < b < s.drop_last().len() ==> s.drop_last()[a].0@ == s[a].0@
                    && s.drop_last()[b].0@ == s[b].0@);
        }
        assert(s.drop_last()[i] == s[i]);
        lemma_entries_map_index(s.drop_last(), i);
        assert(s.last().0@ != s[i].0@);
    }
}

proof fn lemma_entries_map_remove<H>(s: Seq<(String, H)>, i: int)
    requires
        unique_keys(s),
        0 <= i < s.len(),
    ensures
        unique_keys(s.remove(i)),
        entries_map(s.remove(i)) == entries_map(s).remove(s[i].0@),
{
    let t = s.remove(i);
    let k = s[i].0@;
    assert forall|a: int, b: int| 0 <= a < b < t.len() implies t[a].0@ != t[b].0@ by {
        let a2: int = if a < i {
            a
        } else {
            a + 1
        };
        let b2: int = if b < i {
            b
        } else {
            b + 1
        };
        assert(t[a] == s[a2] && t[b] == s[b2]);
    }
    assert forall|k2: Seq<char>| true implies (entries_map(t).contains_key(k2) <==> entries_map(
        s,
    ).remove(k).contains_key(k2)) by {
        lemma_entries_map_contains(t, k2);
        lemma_entries_map_contains(s, k2);
        if k2 == k {
            if exists|j: int| 0 <= j < t.len() && #[trigger] t[j].0@ == k2 {
                let j = choose|j: int| 0 <= j < t.len() && #[trigger] t[j].0@ == k2;
                let j2: int = if j < i {
                    j
                } else {
                    j + 1
                };
                assert(t[j] == s[j2]);
                assert(s[j2].0@ == s[i].0@ && j2 != i);
                assert(false);
            }
        } else {
            if exists|j: int| 0 <= j < t.len() && #[trigger] t[j].0@ == k2 {
                let j = choose|j: int| 0 <= j < t.len() && #[trigger] t[j].0@ == k2;
                let j2: int = if j < i {
                    j
                } else {
                    j + 1
                };
                assert(s[j2].0@ == k2);
            }
            if exists|j: int| 0 <= j < s.len() && #[trigger] s[j].0@ == k2 {
                let j = choose|j: int| 0 <= j < s.len() && #[trigger] s[j].0@ == k2;
                assert(j != i);
                let j2: int = if j < i {
                    j
                } else {
                    j - 1
                };
                assert(t[j2] == s[j]);
                assert(t[j2].0@ == k2);
            }
        }
    }
    assert forall|k2: Seq<char>|
        entries_map(t).contains_key(k2) implies #[trigger] entries_map(t)[k2] == entries_map(
        s,
    ).remove(k)[k2] by {
        lemma_entries_map_contains(t, k2);
        let j = choose|j: int| 0 <= j < t.len() && #[trigger] t[j].0@ == k2;
        lemma_entries_map_index(t, j);
        let j2: int = if j < i {
            j
        } else {
            j + 1
        };
        assert(t[j] == s[j2]);
        lemma_entries_map_index(s, j2);
    }
    assert(entries_map(t) =~= entries_map(s).remove(k));
}

proof fn lemma_entries_map_len<H>(s: Seq<(String, H)>)
    requires
        unique_keys(s),
    ensures
        entries_map(s).dom().finite(),
        entries_map(s).dom().len() == s.len(),
    decreases s.len(),
{
    broadcast use vstd::set::axiom_set_insert_len;

    if s.len() > 0 {
        assert(unique_keys(s.drop_last())) by {
            assert(forall|a: int, b: int|
                0 <= a < b < s.drop_last().len() ==> s.drop_last()[a].0@ == s[a].0@
                    && s.drop_last()[b].0@ == s[b].0@);
        }
        lemma_entries_map_len(s.drop_last());
        lemma_entries_map_contains(s.drop_last(), s.last().0@);
        assert(!entries_map(s.drop_last()).contains_key(s.last().0@)) by {
            if exists|i: int|
                0 <= i < s.drop_last().len() && #[trigger] s.drop_last()[i].0@ == s.last().0@ {
                let i = choose|i: int|
                    0 <= i < s.drop_last().len() && #[trigger] s.drop_last()[i].0@ == s.last().0@;
                assert(s[i].0@ == s[s.len() - 1].0@);
                assert(false);
            }
        }
        assert(entries_map(s).dom() =~= entries_map(s.drop_last()).dom().insert(s.last().0@));
    }
}

/// The registry: run id to live handle, one entry per id.
pub struct ProcessManager<H> {
    entries: Vec<(String, H)>,
}

impl<H> View for ProcessManager<H> {
    type V = Map<Seq<char>, H>;

    closed spec fn view(&self) -> Map<Seq<char>, H> {
        entries_map(self.entries@)
    }
}

impl<H> ProcessManager<H> {
    /// The registry's internal invariant: each run id occurs once.
    pub closed spec fn wf(&self) -> bool {
        unique_keys(self.entries@)
    }

    /// An empty registry: no run is live at startup.
    pub fn new() -> (r: Self)
        ensures
            r.wf(),
            r@ == Map::<Seq<char>, H>::empty(),
    {
        ProcessManager { entries: Vec::new() }
    }

    /// The position of `run_id` among the entries, if present.
    fn find_index(&self, run_id: &str) -> (r: Option<usize>)
        ensures
            match r {
                Some(i) => i < self.entries@.len() && self.entries@[i as int].0@ == run_id@,
                None => forall|j: int| 0 <= j < self.entries@.len() ==> self.entries@[j].0@ != run_id@,
            },
    {
        let n = self.entries.len();
        let mut i: usize = 0;
        while i < n
            invariant
                n == self.entries@.len(),
                i <= n,
                forall|j: int| 0 <= j < i ==> self.entries@[j].0@ != run_id@,
            decreases n - i,
        {
            if str_eq(self.entries[i].0.as_str(), run_id) {
                return Some(i);
            }
            i = i + 1;
        }
        None
    }

    /// Registers a handle under `run_id`, silently replacing any
    /// prior entry for that id. The replaced handle, if any, is
    /// orphaned from cancellation; reusing a live id is the caller's
    /// decision.
    pub fn add_process(&mut self, run_id: String, child: H)
        requires
            old(self).wf(),
        ensures
            final(self).wf(),
            final(self)@ == old(self)@.insert(run_id@, child),
    {
        let ghost s0 = self.entries@;
        match self.find_index(run_id.as_str()) {
            Some(i) => {
                proof {
                    lemma_entries_map_remove(s0, i as int);
                }
                self.entries.remove(i);
            },
            None => {
                proof {
                    lemma_entries_map_contains(s0, run_id@);
                    assert(self@.remove(run_id@) =~= self@);
                }
            },
        }
        let ghost s1 = self.entries@;
        proof {
            assert(entries_map(s1) == entries_map(s0).remove(run_id@));
            assert(forall|j: int| 0 <= j < s1.len() ==> #[trigger] s1[j].0@ != run_id@) by {
                lemma_entries_map_contains(s1, run_id@);
                assert(!entries_map(s1).contains_key(run_id@));
            }
        }
        self.entries.push((run_id, child));
        proof {
            assert(self.entries@.drop_last() =~= s1);
            assert(self@ =~= entries_map(s0).insert(self.entries@.last().0@, child));
            assert(self@ =~= old(self)@.insert(self.entries@.last().0@, child));
            assert forall|a: int, b: int|
                0 <= a < b < self.entries@.len() implies self.entries@[a].0@
                != self.entries@[b].0@ by {
                if b == self.entries@.len() - 1 {
                    assert(s1[a].0@ != run_id@);
                } else {
                    assert(self.entries@[a] == s1[a] && self.entries@[b] == s1[b]);
                }
            }
        }
    }

    /// Looks up the live handle registered under `run_id`.
    pub fn get_process(&self, run_id: &str) -> (r: Option<&H>)
        requires
            self.wf(),
        ensures
            match r {
                Some(h) => self@.contains_key(run_id@) && *h == self@[run_id@],
                None => !self@.contains_key(run_id@),
            },
    {
        proof {
            lemma_entries_map_contains(self.entries@, run_id@);
        }
        match self.find_index(run_id) {
            Some(i) => {
                proof {
                    lemma_entries_map_index(self.entries@, i as int);
                }
                Some(&self.entries[i].1)
            },
            None => None,
        }
    }

    /// Cancellation by run id: finds the live handle so the caller
    /// can deliver the kill signal (fire-and-forget, idempotent at
    /// the process level). The entry is not removed here — cleanup
    /// stays with the run's own executor. An unknown, already
    /// completed, or never registered id reports a not-found
    /// outcome: the expected result of the race between natural
    /// completion and a cancel request, not a system fault.
    pub fn cancel_process(&self, run_id: &str) -> (r: Result<&H, AppError>)
        requires
            self.wf(),
        ensures
            match r {
                Ok(h) => self@.contains_key(run_id@) && *h == self@[run_id@],
                Err(e) => !self@.contains_key(run_id@) && (e matches AppError::ProcessNotFound(id)
                    && id@ == run_id@),
            },
    {
        match self.get_process(run_id) {
            Some(h) => Ok(h),
            None => Err(AppError::ProcessNotFound(run_id.to_owned())),
        }
    }

    /// Removes the entry for `run_id`; a no-op when the id is not
    /// registered. Called by the run's executor after the child has
    /// exited.
    pub fn remove_process(&mut self, run_id: &str)
        requires
            old(self).wf(),
        ensures
            final(self).wf(),
            final(self)@ == old(self)@.remove(run_id@),
    {
        match self.find_index(run_id) {
            Some(i) => {
                proof {
                    lemma_entries_map_remove(self.entries@, i as int);
                }
                self.entries.remove(i);
            },
            None => {
                proof {
                    lemma_entries_map_contains(self.entries@, run_id@);
                    assert(self@.remove(run_id@) =~= self@);
                }
            },
        }
    }

    /// The number of live runs.
    pub fn active_count(&self) -> (r: usize)
        requires
            self.wf(),
        ensures
            r as nat == self@.dom().len(),
    {
        proof {
            lemma_entries_map_len(self.entries@);
        }
        self.entries.len()
    }
}

/// Registering two runs under one id overwrites the entry: the
/// registry keeps only the most recently registered handle, so a
/// cancellation of that id reaches the later handle and only it.
pub proof fn lemma_register_overwrites<H>(m: Map<Seq<char>, H>, id: Seq<char>, h1: H, h2: H)
    ensures
        m.insert(id, h1).insert(id, h2) == m.insert(id, h2),
        m.insert(id, h1).insert(id, h2)[id] == h2,
{
    assert(m.insert(id, h1).insert(id, h2) =~= m.insert(id, h2));
}

} // verus!
