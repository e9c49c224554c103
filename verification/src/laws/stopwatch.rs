//! What the statistics of timings say, and in what order jobs run.
use crate::laws::model::{counts_to, of};
use crate::laws::sums::lemma_right_distributes;
use crate::laws::terms::{billion, splits};
use crate::scalar::Exact;
use crate::sweep::sweep_iters;
use crate::timing::{
    iters_for, lemma_ranked_unique, median, ranked, ranked_is_sorted, ranks, ranks_are_ordered,
    seconds, time_stats, Progress, Ranks, Schedule, TimeStats,
};
use vstd::prelude::*;

verus! {

/// `t` holds the timings of `s`, fastest first.
pub open spec fn in_order(t: Seq<u64>, s: Seq<u64>) -> bool {
    &&& t.to_multiset() == s.to_multiset()
    &&& forall|i: int, j: int| 0 <= i <= j < t.len() ==> t[i] <= t[j]
}

proof fn lemma_in_order(t: Seq<u64>, s: Seq<u64>)
    requires
        in_order(t, s),
    ensures
        t == ranked(s),
        t.len() == s.len(),
{
    lemma_ranked_unique(s, t);
    ranked_is_sorted(s);
}

/// The order statistics: the fastest run, the middle one, and the ones a quarter of
/// the way from either end.
pub proof fn ranks_are_taken_in_order(
    samples: Vec<u64>,
    r: Ranks,
    middle: u64,
    t: Seq<u64>,
)
    requires
        samples@.len() > 0,
        call_ensures(ranks, (samples,), r),
        call_ensures(median, (samples,), middle),
        in_order(t, samples@),
    ensures
        r.best == t[0],
        r.first_quartile == t[t.len() as int / 4],
        r.median == t[t.len() as int / 2],
        r.third_quartile == t[t.len() - 1 - t.len() as int / 4],
        middle == t[t.len() as int / 2],
        forall|i: int| 0 <= i < samples@.len() ==> r.best <= #[trigger] samples@[i],
{
    lemma_in_order(t, samples@);
    ranks_are_ordered(samples@);
}

/// Seconds times a billion are nanoseconds.
pub proof fn seconds_are_billions_of_nanoseconds<S: Exact>(nanos: u64, secs: S, limit: int)
    requires
        call_ensures(seconds::<S>, (nanos,), secs),
        counts_to::<S>(limit),
        nanos <= limit,
        splits(of::<S>((nanos % 1000000000) as int), billion()),
        of::<S>((nanos % 1000000000) as int).div_spec(billion()).is_finite_spec(),
        of::<S>((nanos / 1000000000) as int).is_finite_spec(),
        billion::<S>().is_finite_spec(),
    ensures
        secs.mul_spec(billion()) == of::<S>(nanos as int),
{
    let (a, b) = ((nanos / 1000000000) as int, (nanos % 1000000000) as int);
    let part = of::<S>(b).div_spec(billion());
    lemma_right_distributes(of::<S>(a), part, billion());
    assert(of::<S>(a).mul_spec(of(1000000000)) == of::<S>(a * 1000000000));
    assert(of::<S>(a * 1000000000).add_spec(of(b)) == of::<S>(a * 1000000000 + b));
}

/// The statistics of a set of timings are its fastest and its middle run in
/// seconds, and the distance between its quartiles as a percentage of the middle.
pub proof fn stats_are_those_of_the_ordered_timings<S: Exact>(
    samples: Vec<u64>,
    r: TimeStats<S>,
    t: Seq<u64>,
    first: S,
    low: S,
    middle: S,
    high: S,
)
    requires
        samples@.len() > 0,
        call_ensures(time_stats::<S>, (samples,), r),
        in_order(t, samples@),
        call_ensures(seconds::<S>, (t[0],), first),
        call_ensures(seconds::<S>, (t[t.len() as int / 4],), low),
        call_ensures(seconds::<S>, (t[t.len() as int / 2],), middle),
        call_ensures(seconds::<S>, (t[t.len() - 1 - t.len() as int / 4],), high),
        splits(high.sub_spec(low), middle),
        high.sub_spec(low).div_spec(middle).is_finite_spec(),
        middle.is_finite_spec(),
        of::<S>(100).is_finite_spec(),
    ensures
        r.best == first,
        r.median == middle,
        middle.greater_than_spec(S::zero_spec()) ==> r.spread_pct.mul_spec(middle)
            == high.sub_spec(low).mul_spec(of(100)),
        !middle.greater_than_spec(S::zero_spec()) ==> r.spread_pct == S::zero_spec(),
{
    lemma_in_order(t, samples@);
    let part = high.sub_spec(low).div_spec(middle);
    let hundred = of::<S>(100);
    // (part * 100) * middle = (part * middle) * 100
    S::mul_associates(part, hundred, middle);
    S::mul_commutes(hundred, middle);
    S::mul_associates(part, middle, hundred);
}

/// Longer sequences are timed in fewer runs.
pub proof fn longer_sequences_run_less_often(n: usize, r: usize)
    requires
        call_ensures(iters_for, (n,), r),
    ensures
        n <= 256 ==> r == 50,
        n > 256 ==> r == 15,
{
}

/// The sweep over tile sizes times four runs where the tables time five.
pub proof fn sweeps_run_four_fifths_as_often(n: usize, tables: usize, sweep: usize)
    requires
        call_ensures(iters_for, (n,), tables),
        call_ensures(sweep_iters, (n,), sweep),
    ensures
        5 * sweep == 4 * tables,
{
}

/// A schedule's progress after runs that took these times.
pub open spec fn after_runs(start: Progress, times: Seq<u64>) -> Progress
    decreases times.len(),
{
    if times.len() == 0 {
        start
    } else {
        after_runs(start, times.drop_last()).advanced(times.last())
    }
}

/// The job that run number `k` is for: rounds of all jobs, and each round starts
/// with the job after the one that the round before started with.
pub open spec fn job_of(k: int, jobs: int) -> int {
    (k / jobs + k % jobs) % jobs
}

/// The times of the first `k` runs that were job `j`'s, without the first three
/// rounds.
pub open spec fn times_of(times: Seq<u64>, k: nat, jobs: int, j: int) -> Seq<u64>
    decreases k,
{
    if k == 0 {
        Seq::empty()
    } else {
        let before = times_of(times, (k - 1) as nat, jobs, j);
        if k - 1 >= 3 * jobs && job_of(k - 1, jobs) == j {
            before.push(times[k - 1])
        } else {
            before
        }
    }
}

/// Recording a time moves a schedule one run further.
pub proof fn recording_advances_one_run(
    s: &mut Schedule,
    start: Progress,
    times: Seq<u64>,
    nanos: u64,
)
    requires
        old(s)@ == after_runs(start, times),
        call_ensures(Schedule::record, (s, nanos), ()),
    ensures
        final(s)@ == after_runs(start, times.push(nanos)),
{
    assert(times.push(nanos).drop_last() =~= times);
}

/// A schedule asks for its jobs in rounds with a rotating start, and hands back
/// each job's own times in order, those of the first three rounds left out.
pub proof fn schedules_rotate_and_keep_times_apart(
    jobs: usize,
    iters: usize,
    start: Schedule,
    times: Seq<u64>,
    now: Schedule,
    next: Option<usize>,
    samples: Vec<Vec<u64>>,
    j: int,
)
    requires
        0 < jobs,
        3 + iters <= usize::MAX,
        call_ensures(Schedule::new, (jobs, iters), start),
        times.len() <= jobs * (3 + iters),
        now@ == after_runs(start@, times),
        call_ensures(Schedule::next, (&now,), next),
        call_ensures(Schedule::into_samples, (now,), samples),
        0 <= j < jobs,
    ensures
        times.len() < jobs * (3 + iters) ==> next == Some(
            job_of(times.len() as int, jobs as int) as usize,
        ),
        times.len() == jobs * (3 + iters) ==> next is None,
        samples@.len() == jobs,
        samples@[j]@ == times_of(times, times.len(), jobs as int, j),
{
    let n = jobs as int;
    let k = times.len() as int;
    lemma_runs(start@, times, n, iters as int, j);
    let round = k / n;
    vstd::arithmetic::div_mod::lemma_fundamental_div_mod(k, n);
    vstd::arithmetic::mul::lemma_mul_is_commutative(n, round);
    vstd::arithmetic::div_mod::lemma_mod_bound(k, n);
    let last = 3 + iters as int;
    if k == n * last {
        vstd::arithmetic::mul::lemma_mul_is_commutative(n, last);
        vstd::arithmetic::div_mod::lemma_fundamental_div_mod_converse(k, n, last, 0);
    } else {
        assert(round < last) by {
            if round >= last {
                assert(n * round >= n * last) by (nonlinear_arith)
                    requires
                        round >= last,
                        n > 0,
                ;
            }
        }
        vstd::arithmetic::div_mod::lemma_mod_bound(round + k % n, n);
    }
}

/// After `k` runs a schedule is `k % jobs` turns into round `k / jobs`.
proof fn lemma_runs(start: Progress, times: Seq<u64>, jobs: int, iters: int, j: int)
    requires
        start.jobs == jobs,
        start.iters == iters,
        start.round == 0,
        start.turn == 0,
        start.samples.len() == jobs,
        forall|i: int| 0 <= i < jobs ==> (#[trigger] start.samples[i]) == Seq::<u64>::empty(),
        0 < jobs,
        0 <= j < jobs,
    ensures
        ({
            let now = after_runs(start, times);
            &&& now.jobs == jobs
            &&& now.iters == iters
            &&& now.round == times.len() as int / jobs
            &&& now.turn == times.len() as int % jobs
            &&& now.samples.len() == jobs
            &&& now.samples[j] == times_of(times, times.len(), jobs, j)
        }),
    decreases times.len(),
{
    let k = times.len() as int;
    if k == 0 {
        vstd::arithmetic::div_mod::lemma_fundamental_div_mod_converse(0, jobs, 0, 0);
    } else {
        let front = times.drop_last();
        lemma_runs(start, front, jobs, iters, j);
        let before = after_runs(start, front);
        let p = k - 1;
        let (round, turn) = (p / jobs, p % jobs);
        vstd::arithmetic::div_mod::lemma_fundamental_div_mod(p, jobs);
        vstd::arithmetic::mul::lemma_mul_is_commutative(jobs, round);
        vstd::arithmetic::div_mod::lemma_mod_bound(p, jobs);
        vstd::arithmetic::div_mod::lemma_div_pos_is_pos(p, jobs);
        if turn + 1 < jobs {
            vstd::arithmetic::div_mod::lemma_fundamental_div_mod_converse(k, jobs, round, turn + 1);
        } else {
            assert((round + 1) * jobs == round * jobs + jobs) by (nonlinear_arith);
            vstd::arithmetic::div_mod::lemma_fundamental_div_mod_converse(k, jobs, round + 1, 0);
        }
        // Three rounds are over exactly from run number three times `jobs` on.
        assert(p >= 3 * jobs <==> round >= 3) by {
            if round >= 3 {
                assert(round * jobs >= 3 * jobs) by (nonlinear_arith)
                    requires
                        round >= 3,
                        jobs > 0,
                ;
            } else {
                assert(round * jobs <= 2 * jobs) by (nonlinear_arith)
                    requires
                        round <= 2,
                        jobs > 0,
                ;
            }
        }
        vstd::arithmetic::div_mod::lemma_mod_bound(round + turn, jobs);
        lemma_times_same(times, front, p as nat, jobs, j);
    }
}

proof fn lemma_times_same(times: Seq<u64>, front: Seq<u64>, k: nat, jobs: int, j: int)
    requires
        k <= front.len(),
        front == times.drop_last(),
        times.len() > 0,
    ensures
        times_of(times, k, jobs, j) == times_of(front, k, jobs, j),
    decreases k,
{
    if k > 0 {
        lemma_times_same(times, front, (k - 1) as nat, jobs, j);
        assert(front[k - 1] == times[k - 1]);
    }
}

} // verus!
