//! Turning repeated timings into numbers worth comparing.
//!
//! Timings are whole nanoseconds. Kernels that are compared with each other run
//! round-robin, one run each per round, with the starting position rotating so
//! nobody systematically eats the cold-cache cost of going first; see
//! [`Schedule`]. Throughput comes from the fastest run, because interference
//! is one-sided: it can only ever make a run slower. The median and the
//! interquartile spread say how far to trust it.
use crate::scalar::Scalar;
use vstd::arithmetic::div_mod::{
    lemma_add_mod_noop, lemma_mod_bound, lemma_mod_sub_multiples_vanish, lemma_small_mod,
};
use vstd::prelude::*;
use vstd::seq_lib::lemma_sorted_unique;

verus! {

/// Untimed runs before the timed ones.
pub const WARM_UPS: usize = 3;

/// Timed runs for a sequence length: fewer of the long ones.
pub fn iters_for(n: usize) -> (r: usize)
    ensures
        r == if n <= 256 {
            50int
        } else {
            15
        },
{
    if n <= 256 {
        50
    } else {
        15
    }
}

/// No element is larger than a later one.
pub open spec fn is_sorted(s: Seq<u64>) -> bool {
    forall|i: int, j: int| 0 <= i <= j < s.len() ==> s[i] <= s[j]
}

/// The same timings, fastest first.
pub open spec fn ranked(s: Seq<u64>) -> Seq<u64> {
    s.sort_by(|a: u64, b: u64| a <= b)
}

/// Ranking reorders the timings and nothing else.
pub proof fn ranked_is_sorted(s: Seq<u64>)
    ensures
        is_sorted(ranked(s)),
        ranked(s).to_multiset() == s.to_multiset(),
        ranked(s).len() == s.len(),
{
    let leq = |a: u64, b: u64| a <= b;
    s.lemma_sort_by_ensures(leq);
    assert forall|i: int, j: int| 0 <= i <= j < ranked(s).len() implies ranked(s)[i]
        <= ranked(s)[j] by {
        if i < j {
            assert(leq(ranked(s)[i], ranked(s)[j]));
        }
    }
    s.to_multiset_ensures();
    ranked(s).to_multiset_ensures();
}

/// A sorted arrangement is the ranking.
pub(crate) proof fn lemma_ranked_unique(s: Seq<u64>, t: Seq<u64>)
    requires
        is_sorted(t),
        t.to_multiset() == s.to_multiset(),
    ensures
        t == ranked(s),
{
    let leq = |a: u64, b: u64| a <= b;
    s.lemma_sort_by_ensures(leq);
    lemma_sorted_unique(t, ranked(s), leq);
}

/// Sorts timings, fastest first.
pub(crate) fn sort(v: Vec<u64>) -> (r: Vec<u64>)
    ensures
        r@ == ranked(v@),
{
    let mut v = v;
    let ghost start = v@;
    let n = v.len();
    let mut i: usize = 0;
    while i < n
        invariant
            i <= n,
            n == v@.len(),
            n == start.len(),
            is_sorted(v@.take(i as int)),
            v@.to_multiset() == start.to_multiset(),
        decreases n - i,
    {
        let ghost before = v@;
        let x = v[i];
        let mut j: usize = i;
        // `x` moves left past everything larger.
        while j > 0 && v[j - 1] > x
            invariant
                j <= i < n,
                n == v@.len(),
                n == before.len(),
                x == before[i as int],
                is_sorted(before.take(i as int)),
                v@ == before.remove(i as int).insert(j as int, x),
                forall|k: int| j <= k < i ==> before[k] > x,
            decreases j,
        {
            let y = v[j - 1];
            assert(y == before[j - 1]);
            v[j] = y;
            v[j - 1] = x;
            assert(v@ =~= before.remove(i as int).insert(j - 1, x));
            j -= 1;
        }
        proof {
            let s = v@.take(i + 1);
            assert forall|a: int, b: int| 0 <= a <= b < s.len() implies s[a] <= s[b] by {
                let prefix = before.take(i as int);
                let pa = if a < j {
                    a
                } else {
                    a - 1
                };
                let pb = if b < j {
                    b
                } else {
                    b - 1
                };
                if a != j && b != j {
                    assert(s[a] == prefix[pa]);
                    assert(s[b] == prefix[pb]);
                } else if a == j && b != j {
                    assert(s[b] == prefix[pb]);
                } else if a != j && b == j {
                    assert(s[a] == prefix[pa]);
                    assert(prefix[pa] <= prefix[j - 1]);
                    assert(s[j - 1] == prefix[j - 1]);
                }
            }
            lemma_move(before, i as int, j as int);
        }
        i += 1;
    }
    assert(v@.take(n as int) =~= v@);
    proof {
        lemma_ranked_unique(start, v@);
    }
    v
}

/// Moving an element keeps the multiset.
proof fn lemma_move(s: Seq<u64>, from: int, to: int)
    requires
        0 <= from < s.len(),
        0 <= to < s.len(),
    ensures
        s.remove(from).insert(to, s[from]).to_multiset() == s.to_multiset(),
{
    let removed = s.remove(from);
    let moved = removed.insert(to, s[from]);
    s.to_multiset_ensures();
    moved.to_multiset_ensures();
    assert(moved.remove(to) =~= removed);
    assert(moved[to] == s[from]);
    assert(s.contains(s[from]) && moved.contains(s[from]));
    assert forall|x: u64| #[trigger] moved.to_multiset().count(x) == s.to_multiset().count(x) by {
        assert(moved.remove(to).to_multiset().count(x) == s.remove(from).to_multiset().count(x));
    }
    assert(moved.to_multiset() =~= s.to_multiset());
}

/// Order statistics of a set of timings, in nanoseconds.
#[derive(Clone, Copy, Debug, PartialEq, Eq, Structural)]
pub struct Ranks {
    pub best: u64,
    pub first_quartile: u64,
    pub median: u64,
    pub third_quartile: u64,
}

/// The order statistics of `s`.
pub open spec fn ranks_spec(s: Seq<u64>) -> Ranks {
    let t = ranked(s);
    Ranks {
        best: t[0],
        first_quartile: t[t.len() as int / 4],
        median: t[t.len() as int / 2],
        third_quartile: t[t.len() - 1 - t.len() as int / 4],
    }
}

/// The order statistics of a set of timings.
pub fn ranks(samples: Vec<u64>) -> (r: Ranks)
    requires
        samples@.len() > 0,
    ensures
        r == ranks_spec(samples@),
{
    proof {
        ranked_is_sorted(samples@);
    }
    let n: usize = samples.len();
    let t = sort(samples);
    Ranks {
        best: t[0],
        first_quartile: t[n / 4],
        median: t[n / 2],
        third_quartile: t[n - 1 - n / 4],
    }
}

/// The median: the run that half of the others beat. Median rather than mean so
/// one descheduled run doesn't skew the result.
pub fn median(samples: Vec<u64>) -> (r: u64)
    requires
        samples@.len() > 0,
    ensures
        r == ranked(samples@)[samples@.len() as int / 2],
{
    proof {
        ranked_is_sorted(samples@);
    }
    ranks(samples).median
}

/// Nanoseconds as seconds: whole seconds plus a fraction.
pub open spec fn seconds_spec<S: Scalar>(nanos: u64) -> S {
    S::from_usize_spec((nanos / 1000000000) as usize).add_spec(
        S::from_usize_spec((nanos % 1000000000) as usize).div_spec(
            S::from_usize_spec(1000000000),
        ),
    )
}

/// Nanoseconds as seconds.
pub fn seconds<S: Scalar>(nanos: u64) -> (r: S)
    ensures
        r == seconds_spec::<S>(nanos),
{
    S::from_usize((nanos / 1000000000) as usize).add(
        S::from_usize((nanos % 1000000000) as usize).div(S::from_usize(1000000000)),
    )
}

/// What a set of timings comes down to, in seconds.
pub struct TimeStats<S> {
    /// The fastest run: the least-contaminated estimate of how long the kernel
    /// actually takes.
    pub best: S,
    pub median: S,
    /// Interquartile spread, as a percentage of the median.
    pub spread_pct: S,
}

/// `part` as a percentage of `whole`, or zero where `whole` is not positive.
pub open spec fn percent_spec<S: Scalar>(part: S, whole: S) -> S {
    if whole.greater_than_spec(S::zero_spec()) {
        part.div_spec(whole).mul_spec(S::from_usize_spec(100))
    } else {
        S::zero_spec()
    }
}

/// `part` as a percentage of `whole`, or zero where `whole` is not positive.
pub(crate) fn percent<S: Scalar>(part: S, whole: S) -> (r: S)
    ensures
        r == percent_spec(part, whole),
{
    if whole.greater_than(S::zero()) {
        part.div(whole).mul(S::from_usize(100))
    } else {
        S::zero()
    }
}

/// The statistics of a set of timings.
pub open spec fn stats_spec<S: Scalar>(samples: Seq<u64>) -> TimeStats<S> {
    let r = ranks_spec(samples);
    TimeStats {
        best: seconds_spec(r.best),
        median: seconds_spec(r.median),
        spread_pct: percent_spec(
            seconds_spec::<S>(r.third_quartile).sub_spec(seconds_spec(r.first_quartile)),
            seconds_spec(r.median),
        ),
    }
}

/// The statistics of a set of timings.
pub fn time_stats<S: Scalar>(samples: Vec<u64>) -> (r: TimeStats<S>)
    requires
        samples@.len() > 0,
    ensures
        r == stats_spec::<S>(samples@),
{
    let r = ranks(samples);
    let median = seconds::<S>(r.median);
    TimeStats {
        best: seconds(r.best),
        median,
        spread_pct: percent(
            seconds::<S>(r.third_quartile).sub(seconds(r.first_quartile)),
            median,
        ),
    }
}

/// The job that runs at position `turn` of a round: the starting job rotates
/// from round to round.
pub open spec fn slot(round: int, turn: int, jobs: int) -> int {
    (round + turn) % jobs
}

/// Whether job `j` is among the first `turn` of the round.
pub open spec fn has_run(round: int, turn: int, jobs: int, j: int) -> bool {
    exists|i: int| 0 <= i < turn && #[trigger] slot(round, i, jobs) == j
}

/// How far a schedule has come.
pub struct Progress {
    pub jobs: int,
    /// Timed rounds.
    pub iters: int,
    pub round: int,
    pub turn: int,
    /// Timings of each job, in nanoseconds.
    pub samples: Seq<Seq<u64>>,
}

impl Progress {
    /// How many timings job `j` has so far.
    pub open spec fn taken(self, j: int) -> int {
        (if self.round > WARM_UPS {
            self.round - WARM_UPS
        } else {
            0
        }) + (if self.round >= WARM_UPS && has_run(self.round, self.turn, self.jobs, j) {
            1int
        } else {
            0
        })
    }

    /// Every job has the timings that its turns so far have given it.
    pub open spec fn wf(self) -> bool {
        &&& 0 <= self.turn < self.jobs
        &&& 0 <= self.round <= WARM_UPS + self.iters <= usize::MAX
        &&& self.round == WARM_UPS + self.iters ==> self.turn == 0
        &&& self.samples.len() == self.jobs
        &&& forall|j: int|
            0 <= j < self.jobs ==> (#[trigger] self.samples[j]).len() == self.taken(j)
    }

    /// Whether every round has run.
    pub open spec fn is_done(self) -> bool {
        self.round == WARM_UPS + self.iters
    }

    /// The job whose turn it is.
    pub open spec fn current(self) -> int {
        slot(self.round, self.turn, self.jobs)
    }

    /// One turn further: the job whose turn it was has taken `nanos`, which the
    /// warm-up rounds drop.
    pub open spec fn advanced(self, nanos: u64) -> Self {
        let samples = if self.round >= WARM_UPS {
            self.samples.update(self.current(), self.samples[self.current()].push(nanos))
        } else {
            self.samples
        };
        if self.turn + 1 < self.jobs {
            Progress { turn: self.turn + 1, samples, ..self }
        } else {
            Progress { round: self.round + 1, turn: 0, samples, ..self }
        }
    }
}

/// Runs several jobs round-robin and keeps their timings.
///
/// Timing one job exhaustively and then the next would measure the two during
/// different seconds of wall-clock, so drift between those blocks would land
/// whole in their ratio. Inside one round every job sees the same neighbours,
/// clock and contention.
pub struct Schedule {
    jobs: usize,
    iters: usize,
    round: usize,
    turn: usize,
    samples: Vec<Vec<u64>>,
}

impl View for Schedule {
    type V = Progress;

    closed spec fn view(&self) -> Progress {
        Progress {
            jobs: self.jobs as int,
            iters: self.iters as int,
            round: self.round as int,
            turn: self.turn as int,
            samples: Seq::new(self.samples@.len(), |j: int| self.samples@[j]@),
        }
    }
}

impl Schedule {
    /// `iters` timed rounds of `jobs` jobs, after the warm-up rounds.
    pub fn new(jobs: usize, iters: usize) -> (r: Self)
        requires
            0 < jobs,
            WARM_UPS + iters <= usize::MAX,
        ensures
            r@.wf(),
            r@ == (Progress {
                jobs: jobs as int,
                iters: iters as int,
                round: 0,
                turn: 0,
                samples: Seq::new(jobs as nat, |j: int| Seq::empty()),
            }),
    {
        let mut samples: Vec<Vec<u64>> = Vec::new();
        while samples.len() < jobs
            invariant
                samples@.len() <= jobs,
                forall|j: int| 0 <= j < samples@.len() ==> (#[trigger] samples@[j])@.len() == 0,
            decreases jobs - samples.len(),
        {
            samples.push(Vec::new());
        }
        let r = Schedule { jobs, iters, round: 0, turn: 0, samples };
        proof {
            let none = Seq::new(jobs as nat, |j: int| Seq::<u64>::empty());
            assert forall|j: int| 0 <= j < jobs implies r@.samples[j] == none[j] by {
                assert(r.samples@[j]@ =~= Seq::empty());
            }
            assert(r@.samples =~= none);
        }
        r
    }

    /// The job to run next, or nothing once every round has run.
    pub fn next(&self) -> (r: Option<usize>)
        requires
            self@.wf(),
        ensures
            r == if self@.is_done() {
                None
            } else {
                Some(self@.current() as usize)
            },
            r matches Some(j) ==> j < self@.jobs && j == self@.current(),
    {
        if self.round == WARM_UPS + self.iters {
            return None;
        }
        let lead: usize = self.round % self.jobs;
        proof {
            lemma_slot_wraps(self.round as int, self.turn as int, self.jobs as int);
        }
        // No overflow even where `lead + turn` would not fit.
        let left: usize = self.jobs - lead;
        Some(
            if self.turn < left {
                lead + self.turn
            } else {
                self.turn - left
            },
        )
    }

    /// Takes the time of the run that `next` asked for, and moves on. Times of
    /// warm-up rounds are dropped.
    pub fn record(&mut self, nanos: u64)
        requires
            old(self)@.wf(),
            !old(self)@.is_done(),
        ensures
            final(self)@.wf(),
            final(self)@ == old(self)@.advanced(nanos),
    {
        let ghost before = self@;
        if let Some(job) = self.next() {
            if self.round >= WARM_UPS {
                self.samples[job].push(nanos);
            }
        }
        if self.turn + 1 < self.jobs {
            self.turn = self.turn + 1;
        } else {
            self.turn = 0;
            self.round = self.round + 1;
        }
        proof {
            let after = before.advanced(nanos);
            assert forall|j: int| 0 <= j < before.jobs implies self@.samples[j]
                == #[trigger] after.samples[j] by {}
            assert(self@.samples =~= after.samples);
            assert forall|j: int| 0 <= j < after.jobs implies (#[trigger] after.samples[j]).len()
                == after.taken(j) by {
                lemma_has_run_step(before.round, before.turn, before.jobs, j);
                assert(before.samples[j].len() == before.taken(j));
            }
        }
    }

    /// The timings of each job.
    pub fn into_samples(self) -> (r: Vec<Vec<u64>>)
        requires
            self@.wf(),
            self@.is_done(),
        ensures
            r@.len() == self@.jobs,
            forall|j: int|
                0 <= j < self@.jobs ==> (#[trigger] r@[j])@ == self@.samples[j] && r@[j]@.len()
                    == self@.iters,
    {
        proof {
            assert forall|j: int| 0 <= j < self@.jobs implies (#[trigger] self.samples@[j])@.len()
                == self@.iters by {
                assert(self@.samples[j].len() == self@.taken(j));
            }
        }
        self.samples
    }
}

/// A position past the end of the round wraps to its start.
proof fn lemma_slot_wraps(round: int, turn: int, jobs: int)
    requires
        0 <= round,
        0 <= turn < jobs,
    ensures
        slot(round, turn, jobs) == if round % jobs + turn < jobs {
            round % jobs + turn
        } else {
            round % jobs + turn - jobs
        },
{
    let lead = round % jobs;
    lemma_add_mod_noop(round, turn, jobs);
    lemma_small_mod(turn as nat, jobs as nat);
    lemma_mod_bound(round, jobs);
    if lead + turn < jobs {
        lemma_small_mod((lead + turn) as nat, jobs as nat);
    } else {
        lemma_small_mod((lead + turn - jobs) as nat, jobs as nat);
        lemma_mod_sub_multiples_vanish(lead + turn, jobs);
    }
}

/// The position at which job `j` runs.
proof fn lemma_slot_inverse(round: int, jobs: int, j: int) -> (turn: int)
    requires
        0 <= round,
        0 <= j < jobs,
    ensures
        0 <= turn < jobs,
        slot(round, turn, jobs) == j,
        forall|i: int|
            0 <= i < jobs && #[trigger] slot(round, i, jobs) == j ==> i == turn,
{
    let lead = round % jobs;
    lemma_mod_bound(round, jobs);
    let turn = if j >= lead {
        j - lead
    } else {
        j - lead + jobs
    };
    lemma_slot_wraps(round, turn, jobs);
    assert forall|i: int| 0 <= i < jobs && #[trigger] slot(round, i, jobs) == j implies i
        == turn by {
        lemma_slot_wraps(round, i, jobs);
    }
    turn
}

/// What one more turn does to the set of jobs that have run.
proof fn lemma_has_run_step(round: int, turn: int, jobs: int, j: int)
    requires
        0 <= round,
        0 <= turn < jobs,
        0 <= j < jobs,
    ensures
        has_run(round, turn + 1, jobs, j) == (has_run(round, turn, jobs, j) || slot(
            round,
            turn,
            jobs,
        ) == j),
        slot(round, turn, jobs) == j ==> !has_run(round, turn, jobs, j),
        turn + 1 == jobs ==> has_run(round, turn + 1, jobs, j),
        !has_run(round, 0, jobs, j),
        !has_run(round + 1, 0, jobs, j),
{
    let at = lemma_slot_inverse(round, jobs, j);
    if has_run(round, turn + 1, jobs, j) {
        let i = choose|i: int| 0 <= i < turn + 1 && #[trigger] slot(round, i, jobs) == j;
        assert(i == turn || 0 <= i < turn);
    }
    if has_run(round, turn, jobs, j) {
        let i = choose|i: int| 0 <= i < turn && #[trigger] slot(round, i, jobs) == j;
        assert(0 <= i < turn + 1 && slot(round, i, jobs) == j);
    }
    if slot(round, turn, jobs) == j {
        assert(0 <= turn < turn + 1);
    }
}

/// Every job runs exactly once a round.
pub proof fn every_job_runs_once_a_round(round: int, jobs: int, j: int)
    requires
        0 <= round,
        0 <= j < jobs,
    ensures
        exists|turn: int| 0 <= turn < jobs && #[trigger] slot(round, turn, jobs) == j,
        forall|a: int, b: int|
            0 <= a < jobs && 0 <= b < jobs && #[trigger] slot(round, a, jobs) == j
                && #[trigger] slot(round, b, jobs) == j ==> a == b,
{
    let turn = lemma_slot_inverse(round, jobs, j);
    assert(slot(round, turn, jobs) == j);
}

/// Over as many rounds as there are jobs, every job goes first exactly once.
pub proof fn every_job_goes_first(round: int, jobs: int, j: int)
    requires
        0 <= round,
        0 <= j < jobs,
    ensures
        exists|later: int|
            round <= later < round + jobs && #[trigger] slot(later, 0, jobs) == j,
        forall|a: int, b: int|
            round <= a < round + jobs && round <= b < round + jobs && #[trigger] slot(a, 0, jobs)
                == j && #[trigger] slot(b, 0, jobs) == j ==> a == b,
{
    let turn = lemma_slot_inverse(round, jobs, j);
    assert(slot(round + turn, 0, jobs) == j);
    assert forall|a: int, b: int|
        round <= a < round + jobs && round <= b < round + jobs && #[trigger] slot(a, 0, jobs) == j
            && #[trigger] slot(b, 0, jobs) == j implies a == b by {
        assert(slot(round, a - round, jobs) == slot(a, 0, jobs));
        assert(slot(round, b - round, jobs) == slot(b, 0, jobs));
    }
}

/// The fastest run is one of the runs, and none is faster; the quartiles lie in
/// order above it.
pub proof fn ranks_are_ordered(s: Seq<u64>)
    requires
        s.len() > 0,
    ensures
        s.contains(ranks_spec(s).best),
        forall|i: int| 0 <= i < s.len() ==> ranks_spec(s).best <= #[trigger] s[i],
        s.contains(ranks_spec(s).median),
        ranks_spec(s).best <= ranks_spec(s).first_quartile <= ranks_spec(s).median
            <= ranks_spec(s).third_quartile,
{
    let t = ranked(s);
    ranked_is_sorted(s);
    s.to_multiset_ensures();
    t.to_multiset_ensures();
    assert(t.contains(t[0]) && t.contains(t[t.len() as int / 2]));
    assert(s.to_multiset().count(t[0]) > 0);
    assert(s.to_multiset().count(t[t.len() as int / 2]) > 0);
    assert forall|i: int| 0 <= i < s.len() implies ranks_spec(s).best <= #[trigger] s[i] by {
        assert(s.contains(s[i]));
        assert(t.to_multiset().count(s[i]) > 0);
        assert(t.contains(s[i]));
    }
}

} // verus!
