//! The ActiveRun table: the ephemeral record of each live subprocess run,
//! its latched cancellation token, and the operations the supervisor uses.
use vstd::prelude::*;
use vstd::string::*;

use crate::store::JobStatus;
use crate::text::str_eq;

verus! {

/// A latched, single-writer cancellation signal: once set it stays set, so
/// a waiter that subscribes after the signal still observes it immediately.
pub struct CancelToken {
    fired: bool,
}

impl CancelToken {
    /// Whether the signal has been given.
    pub closed spec fn signalled(&self) -> bool {
        self.fired
    }

    /// A fresh, unsignalled token.
    pub fn new() -> (t: CancelToken)
        ensures
            !t.signalled(),
    {
        CancelToken { fired: false }
    }

    /// Gives the signal. Nothing ever takes it back.
    pub fn set(&mut self)
        ensures
            final(self).signalled(),
    {
        self.fired = true;
    }

    /// Observes the signal; a wait completes immediately exactly when this
    /// is true, however late the waiter subscribed.
    pub fn is_cancelled(&self) -> (b: bool)
        ensures
            b == self.signalled(),
    {
        self.fired
    }
}

/// One step of a token's life: whatever an operation does, a given signal
/// is never lost.
pub open spec fn token_step(pre: CancelToken, post: CancelToken) -> bool {
    pre.signalled() ==> post.signalled()
}

/// The latch law: along any sequence of operation steps, once the signal is
/// set every later observation sees it — no waiter can miss it, however the
/// steps interleave with subscriptions.
pub proof fn lemma_token_latched(ts: Seq<CancelToken>, i: int, j: int)
    requires
        0 <= i <= j < ts.len(),
        ts[i].signalled(),
        forall|k: int| 0 <= k < ts.len() - 1 ==> token_step(#[trigger] ts[k], ts[k + 1]),
    ensures
        ts[j].signalled(),
    decreases j - i,
{
    if i < j {
        assert(token_step(ts[j - 1], ts[j]));
        lemma_token_latched(ts, i, j - 1);
    }
}

/// The ephemeral record of one live run: its job identity, source, current
/// in-memory status and cancellation handle. Created when a subprocess is
/// launched, removed unconditionally when it exits.
pub struct ActiveDownload {
    pub id: String,
    pub url: String,
    pub status: JobStatus,
    pub cancel_token: CancelToken,
}

/// The first index whose run carries the given job identity.
pub open spec fn run_idx(s: Seq<ActiveDownload>, id: Seq<char>, i: int) -> Option<int>
    decreases s.len() - i,
{
    if i < 0 || i >= s.len() {
        None
    } else if s[i].id@ == id {
        Some(i)
    } else {
        run_idx(s, id, i + 1)
    }
}

pub proof fn lemma_run_idx(s: Seq<ActiveDownload>, id: Seq<char>, i: int, b: int)
    requires
        0 <= i <= b <= s.len(),
        forall|k: int| i <= k < b ==> s[k].id@ != id,
        b < s.len() ==> s[b].id@ == id,
    ensures
        run_idx(s, id, i) == if b < s.len() {
            Some(b)
        } else {
            None::<int>
        },
    decreases b - i,
{
    if i < b {
        lemma_run_idx(s, id, i + 1, b);
    }
}

/// How many runs are currently in the downloading state.
pub open spec fn count_active(s: Seq<ActiveDownload>) -> nat
    decreases s.len(),
{
    if s.len() == 0 {
        0
    } else {
        count_active(s.drop_last()) + if s.last().status == JobStatus::Downloading {
            1nat
        } else {
            0nat
        }
    }
}

/// The identities of the queued runs, in table order.
pub open spec fn queued_ids_of(s: Seq<ActiveDownload>) -> Seq<Seq<char>>
    decreases s.len(),
{
    if s.len() == 0 {
        Seq::empty()
    } else {
        let rest = queued_ids_of(s.drop_last());
        if s.last().status == JobStatus::Queued {
            rest.push(s.last().id@)
        } else {
            rest
        }
    }
}

/// The table of in-flight runs. At most one run exists per job identity at
/// any time; every operation preserves that.
pub struct DownloadManager {
    pub active: Vec<ActiveDownload>,
}

impl DownloadManager {
    /// Run identities are unique.
    pub open spec fn wf(&self) -> bool {
        forall|i: int, j: int|
            0 <= i < j < self.active@.len() ==> (#[trigger] self.active@[i]).id@ != (
            #[trigger] self.active@[j]).id@
    }

    /// An empty table.
    pub fn new() -> (r: DownloadManager)
        ensures
            r.wf(),
            r.active@.len() == 0,
    {
        DownloadManager { active: Vec::new() }
    }

    /// The position of the run with the given identity.
    pub fn find_run(&self, id: &str) -> (r: Option<usize>)
        ensures
            match r {
                Some(i) => run_idx(self.active@, id@, 0) == Some(i as int) && i
                    < self.active@.len() && self.active@[i as int].id@ == id@,
                None => run_idx(self.active@, id@, 0) is None && forall|k: int|
                    0 <= k < self.active@.len() ==> (#[trigger] self.active@[k]).id@ != id@,
            },
    {
        let n = self.active.len();
        let mut i: usize = 0;
        while i < n
            invariant
                n == self.active@.len(),
                i <= n,
                forall|k: int| 0 <= k < i ==> (#[trigger] self.active@[k]).id@ != id@,
            decreases n - i,
        {
            if str_eq(self.active[i].id.as_str(), id) {
                proof {
                    lemma_run_idx(self.active@, id@, 0, i as int);
                }
                return Some(i);
            }
            i += 1;
        }
        proof {
            lemma_run_idx(self.active@, id@, 0, n as int);
        }
        None
    }

    /// Registers a freshly launched run. A duplicate identity is refused:
    /// at most one run exists per identity.
    pub fn insert_run(&mut self, run: ActiveDownload) -> (r: bool)
        requires
            old(self).wf(),
        ensures
            final(self).wf(),
            r == (run_idx(old(self).active@, run.id@, 0) is None),
            if r {
                final(self).active@ == old(self).active@.push(run)
            } else {
                final(self).active@ == old(self).active@
            },
    {
        if self.find_run(run.id.as_str()).is_some() {
            return false;
        }
        self.active.push(run);
        true
    }

    /// Removes the run of the given identity, if any: what happens
    /// unconditionally when its subprocess exits.
    pub fn remove_run(&mut self, id: &str)
        requires
            old(self).wf(),
        ensures
            final(self).wf(),
            match run_idx(old(self).active@, id@, 0) {
                Some(i) => final(self).active@ == old(self).active@.remove(i),
                None => final(self).active@ == old(self).active@,
            },
            forall|k: int|
                0 <= k < final(self).active@.len() ==> (#[trigger] final(self).active@[k]).id@
                    != id@,
    {
        match self.find_run(id) {
            Some(i) => {
                self.active.remove(i);
                proof {
                    let pre = old(self).active@;
                    let post = final(self).active@;
                    assert forall|k: int| 0 <= k < post.len() implies (#[trigger] post[k]).id@
                        != id@ by {
                        if k < i {
                            assert(post[k] == pre[k]);
                            lemma_run_idx_first(pre, id@, i as int);
                        } else {
                            assert(post[k] == pre[k + 1]);
                        }
                    }
                }
            },
            None => {},
        }
    }

    /// Signals the run's cancellation token, if the run exists; the run
    /// record itself stays until the subprocess exit is observed.
    pub fn signal_cancel(&mut self, id: &str) -> (r: bool)
        requires
            old(self).wf(),
        ensures
            final(self).wf(),
            match run_idx(old(self).active@, id@, 0) {
                Some(i) => {
                    &&& r
                    &&& final(self).active@.len() == old(self).active@.len()
                    &&& final(self).active@[i].cancel_token.signalled()
                    &&& final(self).active@[i].id@ == old(self).active@[i].id@
                    &&& final(self).active@[i].status == old(self).active@[i].status
                    &&& forall|k: int|
                        0 <= k < old(self).active@.len() && k != i ==> final(self).active@[k]
                            == old(self).active@[k]
                },
                None => !r && final(self).active@ == old(self).active@,
            },
    {
        match self.find_run(id) {
            Some(i) => {
                self.active[i].cancel_token.set();
                true
            },
            None => false,
        }
    }

    /// Marks a downloading run paused; reports whether it did.
    pub fn pause(&mut self, id: &str) -> (r: bool)
        requires
            old(self).wf(),
        ensures
            final(self).wf(),
            r == (match run_idx(old(self).active@, id@, 0) {
                Some(i) => old(self).active@[i].status == JobStatus::Downloading,
                None => false,
            }),
            if r {
                final(self).active@ == old(self).active@.update(
                    run_idx(old(self).active@, id@, 0).unwrap(),
                    ActiveDownload {
                        status: JobStatus::Paused,
                        ..old(self).active@[run_idx(old(self).active@, id@, 0).unwrap()]
                    },
                )
            } else {
                final(self).active@ == old(self).active@
            },
    {
        match self.find_run(id) {
            Some(i) => {
                if self.active[i].status == JobStatus::Downloading {
                    self.active[i].status = JobStatus::Paused;
                    proof {
                        assert(final(self).active@ =~= old(self).active@.update(
                            i as int,
                            ActiveDownload {
                                status: JobStatus::Paused,
                                ..old(self).active@[i as int]
                            },
                        ));
                    }
                    true
                } else {
                    false
                }
            },
            None => false,
        }
    }

    /// Marks a paused run downloading again; reports whether it did.
    pub fn resume(&mut self, id: &str) -> (r: bool)
        requires
            old(self).wf(),
        ensures
            final(self).wf(),
            r == (match run_idx(old(self).active@, id@, 0) {
                Some(i) => old(self).active@[i].status == JobStatus::Paused,
                None => false,
            }),
            if r {
                final(self).active@ == old(self).active@.update(
                    run_idx(old(self).active@, id@, 0).unwrap(),
                    ActiveDownload {
                        status: JobStatus::Downloading,
                        ..old(self).active@[run_idx(old(self).active@, id@, 0).unwrap()]
                    },
                )
            } else {
                final(self).active@ == old(self).active@
            },
    {
        match self.find_run(id) {
            Some(i) => {
                if self.active[i].status == JobStatus::Paused {
                    self.active[i].status = JobStatus::Downloading;
                    proof {
                        assert(final(self).active@ =~= old(self).active@.update(
                            i as int,
                            ActiveDownload {
                                status: JobStatus::Downloading,
                                ..old(self).active@[i as int]
                            },
                        ));
                    }
                    true
                } else {
                    false
                }
            },
            None => false,
        }
    }

    /// Signals the run's token and removes its record; every other run is
    /// left untouched.
    pub fn cancel(&mut self, id: &str)
        requires
            old(self).wf(),
        ensures
            final(self).wf(),
            forall|k: int|
                0 <= k < final(self).active@.len() ==> (#[trigger] final(self).active@[k]).id@
                    != id@,
            match run_idx(old(self).active@, id@, 0) {
                Some(i) => final(self).active@ == old(self).active@.remove(i),
                None => final(self).active@ == old(self).active@,
            },
    {
        let _ = self.signal_cancel(id);
        proof {
            if let Some(i) = run_idx(old(self).active@, id@, 0) {
                lemma_run_idx_first(old(self).active@, id@, i);
                lemma_run_idx(self.active@, id@, 0, i);
            }
        }
        self.remove_run(id);
        proof {
            if let Some(i) = run_idx(old(self).active@, id@, 0) {
                lemma_run_idx_first(old(self).active@, id@, i);
                assert(final(self).active@ =~= old(self).active@.remove(i));
            }
        }
    }

    /// How many runs are downloading right now.
    pub fn get_active_count(&self) -> (r: usize)
        ensures
            r == count_active(self.active@),
    {
        let n = self.active.len();
        let mut count: usize = 0;
        let mut i: usize = 0;
        while i < n
            invariant
                n == self.active@.len(),
                i <= n,
                count == count_active(self.active@.take(i as int)),
                count <= i,
            decreases n - i,
        {
            proof {
                assert(self.active@.take(i + 1).drop_last() =~= self.active@.take(i as int));
            }
            if self.active[i].status == JobStatus::Downloading {
                count += 1;
            }
            i += 1;
        }
        proof {
            assert(self.active@.take(n as int) =~= self.active@);
        }
        count
    }

    /// Whether one more download may start under the concurrency limit.
    pub fn can_start_download(&self, max_concurrent: usize) -> (r: bool)
        ensures
            r == (count_active(self.active@) < max_concurrent),
    {
        self.get_active_count() < max_concurrent
    }

    /// The identities of the queued runs, in table order.
    pub fn get_queued_ids(&self) -> (r: Vec<String>)
        ensures
            r@.map_values(|x: String| x@) == queued_ids_of(self.active@),
    {
        let n = self.active.len();
        let mut out: Vec<String> = Vec::new();
        let mut i: usize = 0;
        while i < n
            invariant
                n == self.active@.len(),
                i <= n,
                out@.map_values(|x: String| x@) == queued_ids_of(self.active@.take(i as int)),
            decreases n - i,
        {
            proof {
                assert(self.active@.take(i + 1).drop_last() =~= self.active@.take(i as int));
            }
            if self.active[i].status == JobStatus::Queued {
                out.push(self.active[i].id.clone());
                proof {
                    assert(out@.map_values(|x: String| x@) =~= queued_ids_of(
                        self.active@.take(i + 1),
                    ));
                }
            } else {
                proof {
                    assert(out@.map_values(|x: String| x@) =~= queued_ids_of(
                        self.active@.take(i + 1),
                    ));
                }
            }
            i += 1;
        }
        proof {
            assert(self.active@.take(n as int) =~= self.active@);
        }
        out
    }
}

/// At most one run exists per job identity: in a well-formed table, two
/// positions carrying the same identity are the same position.
pub proof fn lemma_at_most_one_run(dm: DownloadManager, i: int, j: int)
    requires
        dm.wf(),
        0 <= i < dm.active@.len(),
        0 <= j < dm.active@.len(),
        dm.active@[i].id@ == dm.active@[j].id@,
    ensures
        i == j,
{
}

/// A first hit of `run_idx` means no earlier position carries the identity.
pub proof fn lemma_run_idx_first(s: Seq<ActiveDownload>, id: Seq<char>, i: int)
    requires
        run_idx(s, id, 0) == Some(i),
    ensures
        0 <= i < s.len(),
        s[i].id@ == id,
        forall|k: int| 0 <= k < i ==> (#[trigger] s[k]).id@ != id,
{
    lemma_run_idx_first_from(s, id, 0, i);
}

proof fn lemma_run_idx_first_from(s: Seq<ActiveDownload>, id: Seq<char>, j: int, i: int)
    requires
        0 <= j,
        run_idx(s, id, j) == Some(i),
    ensures
        j <= i < s.len(),
        s[i].id@ == id,
        forall|k: int| j <= k < i ==> (#[trigger] s[k]).id@ != id,
    decreases s.len() - j,
{
    if j < s.len() && s[j].id@ != id {
        lemma_run_idx_first_from(s, id, j + 1, i);
    }
}

} // verus!
