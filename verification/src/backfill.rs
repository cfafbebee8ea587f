//! Backfill jobs started and cancelled by RPC: their ids, the limit on how many
//! run at once, and the range that a backfill from the command line covers. The
//! host runs the jobs and tells when one ended.
use vstd::prelude::*;

verus! {

/// The backfill jobs as plain values.
pub struct JobsView {
    /// How many jobs may run at once.
    pub limit: nat,
    /// How many run now (each holds one of the limited permits).
    pub running: nat,
    /// The id the next job gets.
    pub next_job_id: u64,
    /// The jobs that can still be cancelled.
    pub jobs: Set<u64>,
}

/// No more jobs run than the limit allows, and every known job has an id below the
/// next one.
pub open spec fn jobs_wf(j: JobsView) -> bool {
    &&& j.running <= j.limit
    &&& forall|id: u64| j.jobs.contains(id) ==> id < j.next_job_id
}

/// `concurrent backfills limit reached: NoPermits`
pub open spec fn limit_reached_text() -> Seq<char> {
    "concurrent backfills limit reached: NoPermits"@
}

/// What starting a job does: a new id, one more job running; refused when the
/// limit is reached.
pub open spec fn after_start(j: JobsView) -> (JobsView, Result<u64, Seq<char>>) {
    if j.running >= j.limit {
        (j, Err(limit_reached_text()))
    } else {
        (
            JobsView {
                running: j.running + 1,
                next_job_id: (j.next_job_id + 1) as u64,
                jobs: j.jobs.insert(j.next_job_id),
                ..j
            },
            Ok(j.next_job_id),
        )
    }
}

/// What cancelling a job does: it is forgotten; refused for a job that is not known.
pub open spec fn after_cancel(j: JobsView, id: u64) -> (JobsView, Result<(), Seq<char>>) {
    if j.jobs.contains(id) {
        (JobsView { jobs: j.jobs.remove(id), ..j }, Ok(()))
    } else {
        (j, Err("backfill job not found"@))
    }
}

/// The backfill jobs.
pub struct BackfillJobs {
    limit: usize,
    running: usize,
    next_job_id: u64,
    jobs: Vec<u64>,
}

impl View for BackfillJobs {
    type V = JobsView;

    closed spec fn view(&self) -> JobsView {
        JobsView {
            limit: self.limit as nat,
            running: self.running as nat,
            next_job_id: self.next_job_id,
            jobs: self.jobs@.to_set(),
        }
    }
}

impl BackfillJobs {
    /// The jobs' inner invariant: each id is held once.
    pub closed spec fn wf(&self) -> bool {
        &&& jobs_wf(self@)
        &&& self.jobs@.no_duplicates()
    }

    /// No jobs yet, at most `limit` at once.
    pub fn new(limit: usize) -> (b: BackfillJobs)
        ensures
            b.wf(),
            b@.limit == limit,
            b@.running == 0,
            b@.next_job_id == 0,
            b@.jobs == Set::<u64>::empty(),
    {
        let b = BackfillJobs { limit, running: 0, next_job_id: 0, jobs: Vec::new() };
        assert(b.jobs@.to_set() =~= Set::<u64>::empty());
        b
    }

    /// The position of a job, if it is known.
    fn position(&self, id: u64) -> (r: Option<usize>)
        ensures
            r matches Some(k) ==> k < self.jobs@.len() && self.jobs@[k as int] == id,
            r is None ==> !self.jobs@.contains(id),
    {
        let n = self.jobs.len();
        let mut k: usize = 0;
        while k < n
            invariant
                n == self.jobs@.len(),
                k <= n,
                forall|j: int| 0 <= j < k ==> self.jobs@[j] != id,
            decreases n - k,
        {
            if self.jobs[k] == id {
                return Some(k);
            }
            k = k + 1;
        }
        None
    }

    /// Whether a job can still be cancelled.
    pub fn contains(&self, id: u64) -> (b: bool)
        ensures
            b == self@.jobs.contains(id),
    {
        self.position(id).is_some()
    }

    /// Starts a job: gives its id, or refuses when as many jobs run as the limit
    /// allows.
    pub fn start_backfill(&mut self) -> (r: Result<u64, String>)
        requires
            old(self).wf(),
            old(self)@.next_job_id < u64::MAX,
        ensures
            final(self).wf(),
            final(self)@ == after_start(old(self)@).0,
            r matches Ok(id) ==> after_start(old(self)@).1 == Ok::<u64, Seq<char>>(id),
            r matches Err(e) ==> after_start(old(self)@).1 == Err::<u64, Seq<char>>(e@),
    {
        if self.running >= self.limit {
            return Err(String::from_str("concurrent backfills limit reached: NoPermits"));
        }
        let id = self.next_job_id;
        proof {
            if self.jobs@.contains(id) {
                assert(self@.jobs.contains(id));
            }
        }
        self.next_job_id = self.next_job_id + 1;
        self.running = self.running + 1;
        let ghost before = self.jobs@;
        self.jobs.push(id);
        assert forall|x: u64| self.jobs@.contains(x) <==> (before.contains(x) || x == id) by {
            if self.jobs@.contains(x) {
                let j = choose|j: int| 0 <= j < self.jobs@.len() && self.jobs@[j] == x;
                if j < before.len() {
                    assert(before[j] == x);
                }
            }
            if before.contains(x) {
                let j = choose|j: int| 0 <= j < before.len() && before[j] == x;
                assert(self.jobs@[j] == x);
            }
            if x == id {
                assert(self.jobs@[before.len() as int] == x);
            }
        }
        assert(self.jobs@.to_set() =~= old(self).jobs@.to_set().insert(id));
        assert(self.jobs@.no_duplicates()) by {
            assert forall|a: int, b: int|
                0 <= a < self.jobs@.len() && 0 <= b < self.jobs@.len() && a != b implies self.jobs@[a]
                != self.jobs@[b] by {
                if a < old(self).jobs@.len() && b < old(self).jobs@.len() {
                } else if a < old(self).jobs@.len() {
                    assert(old(self).jobs@.contains(self.jobs@[a]));
                } else {
                    assert(old(self).jobs@.contains(self.jobs@[b]));
                }
            }
        }
        Ok(id)
    }

    /// Cancels a job: it is forgotten (the host then tells it to stop); refused for
    /// a job that is not known.
    pub fn cancel_backfill(&mut self, id: u64) -> (r: Result<(), String>)
        requires
            old(self).wf(),
        ensures
            final(self).wf(),
            final(self)@ == after_cancel(old(self)@, id).0,
            r is Ok <==> after_cancel(old(self)@, id).1 is Ok,
            r matches Err(e) ==> after_cancel(old(self)@, id).1 == Err::<(), Seq<char>>(e@),
    {
        match self.position(id) {
            None => {
                assert(!self@.jobs.contains(id));
                Err(String::from_str("backfill job not found"))
            },
            Some(k) => {
                let ghost before = self.jobs@;
                self.jobs.remove(k);
                assert(self.jobs@ =~= before.remove(k as int));
                assert(self.jobs@.to_set() =~= before.to_set().remove(id)) by {
                    assert forall|x: u64| self.jobs@.contains(x) <==> (before.contains(x) && x != id) by {
                        if self.jobs@.contains(x) {
                            let j = choose|j: int| 0 <= j < self.jobs@.len() && self.jobs@[j] == x;
                            if j < k {
                                assert(before[j] == x);
                            } else {
                                assert(before[j + 1] == x);
                            }
                        }
                        if before.contains(x) && x != id {
                            let j = choose|j: int| 0 <= j < before.len() && before[j] == x;
                            if j < k {
                                assert(self.jobs@[j] == x);
                            } else {
                                assert(j != k);
                                assert(self.jobs@[j - 1] == x);
                            }
                        }
                    }
                }
                Ok(())
            },
        }
    }

    /// A job finished on its own: it is forgotten, if it still was known.
    pub fn finish(&mut self, id: u64)
        requires
            old(self).wf(),
        ensures
            final(self).wf(),
            final(self)@ == (JobsView { jobs: old(self)@.jobs.remove(id), ..old(self)@ }),
    {
        let _ = self.cancel_backfill(id);
        assert(self@.jobs =~= old(self)@.jobs.remove(id));
    }

    /// A job's task ended, finished or cancelled, and gave its permit back.
    pub fn job_ended(&mut self)
        requires
            old(self).wf(),
            old(self)@.running > 0,
        ensures
            final(self).wf(),
            final(self)@ == (JobsView { running: (old(self)@.running - 1) as nat, ..old(self)@ }),
    {
        self.running = self.running - 1;
    }

    /// How many jobs run now.
    pub fn running(&self) -> (n: usize)
        ensures
            n == self@.running,
    {
        self.running
    }
}

/// `failed to cancel backfill job` where the job's task was gone before the request
/// to stop reached it.
pub fn cancel_delivered(delivered: bool) -> (r: Result<(), String>)
    ensures
        r is Ok <==> delivered,
        r matches Err(e) ==> e@ == "failed to cancel backfill job"@,
{
    if delivered {
        Ok(())
    } else {
        Err(String::from_str("failed to cancel backfill job"))
    }
}

/// The end of the block range of a backfill from the command line.
#[derive(Clone, Copy, Debug, PartialEq, Eq, Structural)]
pub enum RangeEnd {
    /// The block given as the end.
    Given,
    /// The latest block.
    Latest,
}

/// The block range that a backfill from the command line covers: from the given
/// block (1 where none is), up to the given block or, where only a start is given,
/// the latest block. `None` where neither is given (no backfill).
pub fn initial_backfill(from_block: Option<u64>, to_block_given: bool) -> (r: Option<(u64, RangeEnd)>)
    ensures
        r is None <==> (from_block is None && !to_block_given),
        r matches Some((start, end)) ==> start == (match from_block {
            Some(b) => b,
            None => 1,
        }) && end == (if to_block_given {
            RangeEnd::Given
        } else {
            RangeEnd::Latest
        }),
{
    let end = if to_block_given {
        RangeEnd::Given
    } else if from_block.is_some() {
        RangeEnd::Latest
    } else {
        return None;
    };
    let start = match from_block {
        Some(b) => b,
        None => 1,
    };
    Some((start, end))
}

/// Jobs get ids that were never given before, and no more jobs run than the limit
/// allows, whatever is started, cancelled or finished.
pub proof fn lemma_start_gives_fresh_ids(j: JobsView)
    requires
        jobs_wf(j),
        j.next_job_id < u64::MAX,
    ensures
        jobs_wf(after_start(j).0),
        after_start(j).1 matches Ok(id) ==> !j.jobs.contains(id) && id == j.next_job_id
            && after_start(j).0.next_job_id > id,
        after_start(j).1 is Err <==> j.running == j.limit,
{
}

/// A job can be cancelled once: the second cancellation is refused.
pub proof fn lemma_cancel_once(j: JobsView, id: u64)
    requires
        j.jobs.contains(id),
    ensures
        after_cancel(j, id).1 is Ok,
        after_cancel(after_cancel(j, id).0, id).1 is Err,
{
}


/// The number of transactions of blocks, together.
pub open spec fn total_transactions(counts: Seq<u64>) -> nat
    decreases counts.len(),
{
    if counts.len() == 0 {
        0
    } else {
        total_transactions(counts.drop_last()) + counts.last() as nat
    }
}

/// What is logged of a committed chain, given the number of transactions of each
/// of its blocks: how many blocks and how many transactions it has.
pub fn process_committed_chain(transactions_per_block: &[u64]) -> (r: (usize, u64))
    requires
        total_transactions(transactions_per_block@) <= u64::MAX,
    ensures
        r.0 == transactions_per_block@.len(),
        r.1 == total_transactions(transactions_per_block@),
{
    let n = transactions_per_block.len();
    let mut total: u64 = 0;
    let mut i: usize = 0;
    while i < n
        invariant
            n == transactions_per_block@.len(),
            i <= n,
            total == total_transactions(transactions_per_block@.subrange(0, i as int)),
            total_transactions(transactions_per_block@) <= u64::MAX,
        decreases n - i,
    {
        let ghost next = transactions_per_block@.subrange(0, i + 1);
        assert(next.drop_last() =~= transactions_per_block@.subrange(0, i as int));
        proof {
            lemma_total_prefix(transactions_per_block@, i + 1);
        }
        total = total + transactions_per_block[i];
        i = i + 1;
    }
    assert(transactions_per_block@.subrange(0, n as int) =~= transactions_per_block@);
    (n, total)
}

/// A prefix has no more transactions than the whole.
proof fn lemma_total_prefix(counts: Seq<u64>, k: int)
    requires
        0 <= k <= counts.len(),
    ensures
        total_transactions(counts.subrange(0, k)) <= total_transactions(counts),
    decreases counts.len() - k,
{
    if k < counts.len() {
        lemma_total_prefix(counts, k + 1);
        assert(counts.subrange(0, k + 1).drop_last() =~= counts.subrange(0, k));
    } else {
        assert(counts.subrange(0, k) =~= counts);
    }
}
} // verus!
