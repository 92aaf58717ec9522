//! Balanced split of a linear job list across a fixed number of threads.
//!
//! With `q = n_jobs / n_threads` and `r = n_jobs % n_threads`, the first `r` threads take
//! `q + 1` consecutive jobs each and the remaining ones take `q`.

use vstd::prelude::*;

verus! {

/// Number of jobs every thread receives at least.
pub open spec fn base_share(n_jobs: int, n_threads: int) -> int {
    n_jobs / n_threads
}

/// Number of threads that receive one job more than the base share.
pub open spec fn extra_jobs(n_jobs: int, n_threads: int) -> int {
    n_jobs % n_threads
}

/// First job of thread `tid`.
pub open spec fn job_start(tid: int, n_jobs: int, n_threads: int) -> int {
    let q = base_share(n_jobs, n_threads);
    let r = extra_jobs(n_jobs, n_threads);
    if tid < r {
        tid * (q + 1)
    } else {
        r + tid * q
    }
}

/// Number of jobs of thread `tid`.
pub open spec fn job_count(tid: int, n_jobs: int, n_threads: int) -> int {
    let q = base_share(n_jobs, n_threads);
    if tid < extra_jobs(n_jobs, n_threads) {
        q + 1
    } else {
        q
    }
}

/// One past the last job of thread `tid`.
pub open spec fn job_end(tid: int, n_jobs: int, n_threads: int) -> int {
    job_start(tid, n_jobs, n_threads) + job_count(tid, n_jobs, n_threads)
}

/// The thread that owns job `job`.
pub open spec fn job_owner(job: int, n_jobs: int, n_threads: int) -> int {
    let q = base_share(n_jobs, n_threads);
    let r = extra_jobs(n_jobs, n_threads);
    if job < r * (q + 1) {
        job / (q + 1)
    } else {
        r + (job - r * (q + 1)) / q
    }
}

/// Half-open range `[start, end)` of job indices.
#[derive(Clone, Copy, Debug, PartialEq, Eq, Structural)]
pub struct JobRange {
    pub start: usize,
    pub end: usize,
}

impl JobRange {
    /// Whether `job` lies in the range.
    pub open spec fn contains(self, job: int) -> bool {
        self.start <= job < self.end
    }

    /// Number of jobs in the range.
    pub fn len(&self) -> (n: usize)
        requires
            self.start <= self.end,
        ensures
            n == self.end - self.start,
    {
        self.end - self.start
    }

    /// Whether `job` lies in the range.
    pub fn has(&self, job: usize) -> (b: bool)
        ensures
            b == self.contains(job as int),
    {
        self.start <= job && job < self.end
    }
}

/// Quotient and remainder recombine, and the shares stay within the job count.
pub proof fn lemma_shares(n_jobs: int, n_threads: int)
    requires
        n_jobs >= 0,
        n_threads >= 1,
    ensures
        base_share(n_jobs, n_threads) >= 0,
        0 <= extra_jobs(n_jobs, n_threads) < n_threads,
        n_jobs == n_threads * base_share(n_jobs, n_threads) + extra_jobs(n_jobs, n_threads),
{
    let q = n_jobs / n_threads;
    let r = n_jobs % n_threads;
    assert(n_jobs == n_threads * q + r && 0 <= r < n_threads && q >= 0) by (nonlinear_arith)
        requires
            q == n_jobs / n_threads,
            r == n_jobs % n_threads,
            n_jobs >= 0,
            n_threads >= 1,
    ;
}

/// The range of every thread lies inside `[0, n_jobs]`.
pub proof fn lemma_job_range_bounds(tid: int, n_jobs: int, n_threads: int)
    requires
        n_jobs >= 0,
        n_threads >= 1,
        0 <= tid < n_threads,
    ensures
        0 <= job_start(tid, n_jobs, n_threads),
        job_start(tid, n_jobs, n_threads) <= job_end(tid, n_jobs, n_threads),
        job_end(tid, n_jobs, n_threads) <= n_jobs,
        tid * base_share(n_jobs, n_threads) <= n_jobs,
{
    lemma_shares(n_jobs, n_threads);
    let q = base_share(n_jobs, n_threads);
    let r = extra_jobs(n_jobs, n_threads);
    assert(0 <= tid * q && (tid + 1) * q <= n_threads * q && tid * q + q == (tid + 1) * q)
        by (nonlinear_arith)
        requires
            0 <= tid < n_threads,
            q >= 0,
    ;
    if tid < r {
        assert(0 <= tid * (q + 1) && (tid + 1) * (q + 1) <= r * (q + 1) && tid * (q + 1) + (q + 1)
            == (tid + 1) * (q + 1) && r * (q + 1) == r * q + r && r * q <= n_threads * q)
            by (nonlinear_arith)
            requires
                0 <= tid < r,
                r < n_threads,
                q >= 0,
        ;
    }
}

/// The ranges follow one another without gap or overlap: the first starts at job 0, each
/// ends where the next starts, and the last ends at `n_jobs`.
pub proof fn lemma_job_ranges_chain(tid: int, n_jobs: int, n_threads: int)
    requires
        n_jobs >= 0,
        n_threads >= 1,
        0 <= tid < n_threads,
    ensures
        job_start(0, n_jobs, n_threads) == 0,
        tid + 1 < n_threads ==> job_end(tid, n_jobs, n_threads) == job_start(
            tid + 1,
            n_jobs,
            n_threads,
        ),
        tid + 1 == n_threads ==> job_end(tid, n_jobs, n_threads) == n_jobs,
{
    lemma_shares(n_jobs, n_threads);
    let q = base_share(n_jobs, n_threads);
    let r = extra_jobs(n_jobs, n_threads);
    assert(tid * (q + 1) + (q + 1) == (tid + 1) * (q + 1) && tid * q + q == (tid + 1) * q && tid
        * (q + 1) == tid * q + tid && n_threads * q == (tid + 1) * q + (n_threads - tid - 1) * q)
        by (nonlinear_arith);
    assert(0 * (q + 1) == 0 && 0 * q == 0) by (nonlinear_arith);
    if tid + 1 == n_threads {
        assert((n_threads - tid - 1) * q == 0) by (nonlinear_arith)
            requires
                tid + 1 == n_threads,
        ;
    }
}

/// Two threads' shares differ by at most one job.
pub proof fn lemma_job_counts_balanced(a: int, b: int, n_jobs: int, n_threads: int)
    ensures
        job_count(a, n_jobs, n_threads) - job_count(b, n_jobs, n_threads) <= 1,
        a <= b ==> job_count(a, n_jobs, n_threads) >= job_count(b, n_jobs, n_threads),
{
}

/// Every job is owned by one thread, and that thread's range holds it.
pub proof fn lemma_job_owner(job: int, n_jobs: int, n_threads: int)
    requires
        n_threads >= 1,
        0 <= job < n_jobs,
    ensures
        0 <= job_owner(job, n_jobs, n_threads) < n_threads,
        job_start(job_owner(job, n_jobs, n_threads), n_jobs, n_threads) <= job,
        job < job_end(job_owner(job, n_jobs, n_threads), n_jobs, n_threads),
{
    lemma_shares(n_jobs, n_threads);
    let q = base_share(n_jobs, n_threads);
    let r = extra_jobs(n_jobs, n_threads);
    if job < r * (q + 1) {
        let t = job / (q + 1);
        assert(0 <= t && t * (q + 1) <= job && job < t * (q + 1) + (q + 1) && (t >= r ==> t * (q
            + 1) >= r * (q + 1))) by (nonlinear_arith)
            requires
                t == job / (q + 1),
                q >= 0,
                job >= 0,
                r >= 0,
        ;
    } else {
        let rest = job - r * (q + 1);
        assert(r * (q + 1) == r * q + r) by (nonlinear_arith);
        assert(q > 0) by (nonlinear_arith)
            requires
                n_jobs == n_threads * q + r,
                job < n_jobs,
                job >= r * q + r,
                q >= 0,
                0 <= r < n_threads,
        ;
        let t = rest / q;
        assert(0 <= t && t * q <= rest && rest < t * q + q && (r + t) * q == r * q + t * q && (r
            + t >= n_threads ==> (r + t) * q >= n_threads * q)) by (nonlinear_arith)
            requires
                t == rest / q,
                q > 0,
                rest >= 0,
                r >= 0,
                n_threads >= 1,
        ;
    }
}

/// A job lies in the range of no thread but its owner.
pub proof fn lemma_job_owner_unique(tid: int, job: int, n_jobs: int, n_threads: int)
    requires
        n_threads >= 1,
        0 <= tid < n_threads,
        0 <= job < n_jobs,
        job_start(tid, n_jobs, n_threads) <= job < job_end(tid, n_jobs, n_threads),
    ensures
        tid == job_owner(job, n_jobs, n_threads),
{
    let owner = job_owner(job, n_jobs, n_threads);
    lemma_job_owner(job, n_jobs, n_threads);
    if tid < owner {
        lemma_job_starts_monotone(tid + 1, owner, n_jobs, n_threads);
        lemma_job_ranges_chain(tid, n_jobs, n_threads);
    } else if owner < tid {
        lemma_job_starts_monotone(owner + 1, tid, n_jobs, n_threads);
        lemma_job_ranges_chain(owner, n_jobs, n_threads);
    }
}

/// Later threads start no earlier.
pub proof fn lemma_job_starts_monotone(a: int, b: int, n_jobs: int, n_threads: int)
    requires
        n_jobs >= 0,
        n_threads >= 1,
        0 <= a <= b < n_threads,
    ensures
        job_start(a, n_jobs, n_threads) <= job_start(b, n_jobs, n_threads),
    decreases b - a,
{
    if a < b {
        lemma_job_starts_monotone(a, b - 1, n_jobs, n_threads);
        lemma_job_ranges_chain(b - 1, n_jobs, n_threads);
        lemma_job_range_bounds(b - 1, n_jobs, n_threads);
    }
}

/// The jobs of thread `tid` among `n_jobs` jobs shared by `n_threads` threads.
pub fn job_range(tid: usize, n_jobs: usize, n_threads: usize) -> (range: JobRange)
    requires
        n_threads >= 1,
        tid < n_threads,
    ensures
        range.start == job_start(tid as int, n_jobs as int, n_threads as int),
        range.end == job_end(tid as int, n_jobs as int, n_threads as int),
        range.start <= range.end <= n_jobs,
{
    let min_jobs_per_thread: usize = n_jobs / n_threads;
    let rem: usize = n_jobs % n_threads;
    proof {
        lemma_shares(n_jobs as int, n_threads as int);
        lemma_job_range_bounds(tid as int, n_jobs as int, n_threads as int);
    }
    if tid < rem {
        let start: usize = tid * (min_jobs_per_thread + 1);
        JobRange { start, end: start + min_jobs_per_thread + 1 }
    } else {
        let start: usize = tid * min_jobs_per_thread + rem;
        JobRange { start, end: start + min_jobs_per_thread }
    }
}

} // verus!
