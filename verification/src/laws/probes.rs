//! What the probes report, and what is made of it.
use crate::laws::measures::{
    are_samples, best_is_the_largest, minima_fit, no_samples_summarize_to_zero,
    worst_is_the_smallest,
};
use crate::laws::model::{counts_to, of};
use crate::laws::terms::{billion, splits};
use crate::roofline::Machine;
use crate::roofline::probe::{
    bandwidth, bandwidth_sample_spec, best_of, fma_chain, fma_chain8, summarize, triad, worst_of,
    Probe,
};
use crate::scalar::{Exact, Measure, Scalar};
use crate::simd::Cpu;
use vstd::prelude::*;

verus! {

/// The best of positive samples is the largest of them, and the spread times the
/// best is a hundred times the distance from the largest to the smallest.
pub proof fn summaries_give_best_and_spread<S: Exact + Measure>(
    samples: &[S],
    r: (S, S),
    high: int,
    low: int,
)
    requires
        call_ensures(summarize::<S>, (samples,), r),
        minima_fit::<S>(),
        forall|i: int|
            0 <= i < samples@.len() ==> {
                &&& (#[trigger] samples@[i]).is_finite_spec()
                &&& samples@[i].greater_than_spec(S::zero_spec())
                &&& !samples@[i].greater_than_spec(samples@[high])
                &&& !samples@[low].greater_than_spec(samples@[i])
            },
        0 <= high < samples@.len(),
        0 <= low < samples@.len(),
        of::<S>(100).is_finite_spec(),
        splits(samples@[high].sub_spec(samples@[low]), samples@[high]),
        samples@[high].sub_spec(samples@[low]).div_spec(samples@[high]).is_finite_spec(),
    ensures
        r.0 == samples@[high],
        r.1.mul_spec(samples@[high]) == samples@[high].sub_spec(samples@[low]).mul_spec(of(100)),
{
    let x = samples@;
    let n = x.len() as int;
    assert(are_samples(x));
    best_is_the_largest(x);
    worst_is_the_smallest(x);
    let (best, worst) = (best_of(x), worst_of(x));
    let a = choose|j: int| 0 <= j < n && #[trigger] x[j] == best;
    let b = choose|j: int| 0 <= j < n && #[trigger] x[j] == worst;
    assert(!x[high].greater_than_spec(best) && !x[a].greater_than_spec(x[high]));
    assert(!worst.greater_than_spec(x[low]) && !x[low].greater_than_spec(x[b]));
    assert(x[high].is_finite_spec() && x[low].is_finite_spec());
    S::order_is_total(best, x[high]);
    S::order_is_total(worst, x[low]);
    assert(best.greater_than_spec(S::zero_spec()));
    let part = best.sub_spec(worst).div_spec(best);
    let hundred = of::<S>(100);
    // (part * 100) * best = (part * best) * 100
    S::mul_associates(part, hundred, best);
    S::mul_commutes(hundred, best);
    S::mul_associates(part, best, hundred);
}

/// No samples have no best and no spread.
pub proof fn nothing_summarizes_to_zero<S: Exact + Measure>(samples: &[S], r: (S, S))
    requires
        call_ensures(summarize::<S>, (samples,), r),
        samples@.len() == 0,
    ensures
        r == (S::zero_spec(), S::zero_spec()),
{
    no_samples_summarize_to_zero::<S>();
    assert(samples@ =~= Seq::empty());
}

/// A probe tells what its next run does and what the runs so far left. It takes a time
/// until it has five samples, and a short one only where four times the batches still
/// fit in a word.
pub proof fn probes_tell_what_they_run<S: Measure>(
    p: &Probe<S>,
    secs: S,
    width: usize,
    flops: usize,
    batches: usize,
    samples: &[S],
    ok: bool,
)
    requires
        call_ensures(Probe::<S>::width, (p,), width),
        call_ensures(Probe::<S>::flops, (p,), flops),
        call_ensures(Probe::<S>::batches, (p,), batches),
        call_ensures(Probe::<S>::samples, (p,), samples),
        call_ensures(Probe::<S>::accepts, (p, secs), ok),
    ensures
        width == p@.width,
        flops == p@.flops,
        batches == p@.batches,
        samples@ == p@.samples,
        ok <==> samples@.len() < 5 && (of::<S>(1).div_spec(of(4)).greater_than_spec(secs) ==> 4
            * batches <= usize::MAX),
{
}

/// A run that was too short makes the next one four times longer and leaves no
/// sample. A long enough one leaves a sample that, times the time in billions, is
/// the work of the run; the fifth ends the measurement with their summary.
pub proof fn probes_measure_work_over_time<S: Measure>(
    p: &mut Probe<S>,
    secs: S,
    r: Option<(S, S)>,
    samples: &[S],
    summary: (S, S),
    work: S,
    limit: int,
)
    requires
        call_ensures(Probe::<S>::record, (p, secs), r),
        old(p)@.samples.len() < 5,
        counts_to::<S>(limit),
        old(p)@.batches * old(p)@.width <= limit,
        old(p)@.batches * old(p)@.width * old(p)@.flops <= limit,
        work == of::<S>(old(p)@.batches * old(p)@.width * old(p)@.flops),
        splits(work, secs),
        splits(work.div_spec(secs), billion()),
        samples@ == final(p)@.samples,
        call_ensures(summarize::<S>, (samples,), summary),
    ensures
        final(p)@.width == old(p)@.width,
        final(p)@.flops == old(p)@.flops,
        of::<S>(1).div_spec(of(4)).greater_than_spec(secs) ==> {
            &&& final(p)@.batches == 4 * old(p)@.batches
            &&& final(p)@.samples == old(p)@.samples
            &&& r is None
        },
        !of::<S>(1).div_spec(of(4)).greater_than_spec(secs) ==> {
            &&& final(p)@.batches == old(p)@.batches
            &&& final(p)@.samples.len() == old(p)@.samples.len() + 1
            &&& final(p)@.samples.drop_last() == old(p)@.samples
            &&& final(p)@.samples.last().mul_spec(billion()).mul_spec(secs) == work
            &&& r == if old(p)@.samples.len() == 4 {
                Some(summary)
            } else {
                None
            }
        },
{
    let b = old(p)@.batches as int;
    let (w, f) = (old(p)@.width as int, old(p)@.flops as int);
    assert(0 <= b * w) by (nonlinear_arith)
        requires
            b >= 0,
            w >= 0,
    ;
    assert(of::<S>(b).mul_spec(of(w)) == of::<S>(b * w));
    assert(of::<S>(b * w).mul_spec(of(f)) == of::<S>(b * w * f));
    if !of::<S>(1).div_spec(of(4)).greater_than_spec(secs) {
        assert(final(p)@.samples.drop_last() =~= old(p)@.samples);
    }
}

/// A probe starts with 4096 batches of 64 lanes, two FLOPs a lane: as 8 instructions
/// of 8 lanes where the CPU has them, one lane an instruction where it has not.
pub proof fn probes_start_alike<S: Measure>(
    cpu: Cpu,
    chosen: Probe<S>,
    lane: Probe<S>,
    wide: Probe<S>,
)
    requires
        call_ensures(Probe::<S>::for_cpu, (cpu,), chosen),
        call_ensures(Probe::<S>::portable, (), lane),
        call_ensures(Probe::<S>::avx2, (), wide),
    ensures
        cpu.x86_64 && cpu.avx2 && cpu.fma ==> chosen@ == wide@,
        !(cpu.x86_64 && cpu.avx2 && cpu.fma) ==> chosen@ == lane@,
        wide@.width == 8 && wide@.flops == 16,
        lane@.width == 64 && lane@.flops == 2,
        wide@.batches == 4096 && lane@.batches == 4096,
        wide@.samples.len() == 0 && lane@.samples.len() == 0,
{
}

/// The bandwidth ceiling summarizes samples that, times their times in billions, are
/// the twelve bytes of every element: two read and one written, of four bytes each.
pub proof fn bandwidth_counts_three_streams<S: Measure>(
    len: usize,
    secs: &[S],
    r: (S, S),
    samples: &[S],
    summary: (S, S),
    limit: int,
)
    requires
        call_ensures(bandwidth::<S>, (len, secs), r),
        call_ensures(summarize::<S>, (samples,), summary),
        counts_to::<S>(limit),
        12 * len <= limit,
        samples@.len() == secs@.len(),
        forall|i: int|
            0 <= i < secs@.len() ==> #[trigger] samples@[i] == of::<S>(12 * len).div_spec(
                secs@[i],
            ).div_spec(billion()),
    ensures
        r == summary,
        forall|i: int|
            0 <= i < secs@.len() && splits(of::<S>(12 * len), secs@[i]) && splits(
                of::<S>(12 * len).div_spec(secs@[i]),
                billion(),
            ) ==> (#[trigger] samples@[i]).mul_spec(billion()).mul_spec(secs@[i]) == of::<S>(
                12 * len,
            ),
{
    let l = len as int;
    assert(of::<S>(3).mul_spec(of(l)) == of::<S>(3 * l));
    assert(of::<S>(3 * l).mul_spec(of(4)) == of::<S>(3 * l * 4));
    let want = Seq::new(
        secs@.len(),
        |i: int| bandwidth_sample_spec(len, secs@[i]),
    );
    assert(samples@ =~= want);
}

/// What a machine says of itself is what its probes gave.
pub proof fn machines_are_what_their_probes_gave<S: Measure>(
    arch: String,
    cpu: Cpu,
    peak: (S, S),
    bandwidth: (S, S),
    m: Machine<S>,
    stamp: String,
)
    requires
        call_ensures(Machine::<S>::measured, (arch, cpu, peak, bandwidth), m),
        call_ensures(crate::roofline::detected_isa, (cpu,), stamp),
    ensures
        m.arch == arch,
        m.isa@ == stamp@,
        m.peak_gflops == peak.0,
        m.peak_spread_pct == peak.1,
        m.bandwidth_gbs == bandwidth.0,
        m.bandwidth_spread_pct == bandwidth.1,
{
}

/// A compute ceiling is noisy past a spread of ten percent, a bandwidth ceiling past
/// twenty-five.
pub proof fn noise_is_a_large_spread<S: Measure>(m: &Machine<S>, peak: bool, bandwidth: bool)
    requires
        call_ensures(Machine::<S>::peak_is_noisy, (m,), peak),
        call_ensures(Machine::<S>::bandwidth_is_noisy, (m,), bandwidth),
    ensures
        peak <==> m.peak_spread_pct.greater_than_spec(of(10)),
        bandwidth <==> m.bandwidth_spread_pct.greater_than_spec(of(25)),
{
}

/// The drift times the compute ceiling is a hundred times how far it moved.
pub proof fn drift_is_relative_to_the_ceiling<S: Exact + Measure>(
    m: &Machine<S>,
    again: S,
    drift: S,
)
    requires
        call_ensures(Machine::<S>::drift_pct, (m, again), drift),
        m.peak_gflops.is_finite_spec(),
        of::<S>(100).is_finite_spec(),
        splits(again.sub_spec(m.peak_gflops).abs_spec(), m.peak_gflops),
        again.sub_spec(m.peak_gflops).abs_spec().div_spec(m.peak_gflops).is_finite_spec(),
    ensures
        m.peak_gflops.greater_than_spec(S::zero_spec()) ==> drift.mul_spec(m.peak_gflops)
            == again.sub_spec(m.peak_gflops).abs_spec().mul_spec(of(100)),
        !m.peak_gflops.greater_than_spec(S::zero_spec()) ==> drift == S::zero_spec(),
{
    let part = again.sub_spec(m.peak_gflops).abs_spec().div_spec(m.peak_gflops);
    let hundred = of::<S>(100);
    S::mul_associates(part, hundred, m.peak_gflops);
    S::mul_commutes(hundred, m.peak_gflops);
    S::mul_associates(part, m.peak_gflops, hundred);
}

/// The bandwidth probe's pass adds, as far as all three arrays reach, the second to
/// a multiple of the third.
pub proof fn triads_add_a_multiple<S: Scalar>(a: &mut [S], b: &[S], c: &[S], s: S, i: int)
    requires
        call_ensures(triad::<S>, (a, b, c, s), ()),
        0 <= i < old(a)@.len(),
    ensures
        final(a)@.len() == old(a)@.len(),
        i < b@.len() && i < c@.len() ==> final(a)@[i] == b@[i].add_spec(s.mul_spec(c@[i])),
        i >= b@.len() || i >= c@.len() ==> final(a)@[i] == old(a)@[i],
{
}

/// Both compute probes put their accumulators through the same chain: one batch more
/// is one multiplication and one addition more, with the same two numbers.
pub proof fn chains_grow_by_one_step<S: Scalar>(
    a: &mut [S],
    b: &mut [S],
    c: &mut [[S; 8]],
    batches: usize,
    i: int,
    j: int,
    lane: int,
)
    requires
        batches < usize::MAX,
        call_ensures(fma_chain::<S>, (a, batches), ()),
        call_ensures(fma_chain::<S>, (b, (batches + 1) as usize), ()),
        call_ensures(fma_chain8::<S>, (c, batches), ()),
        0 <= i < old(a)@.len(),
        old(b)@ == old(a)@,
        0 <= j < old(c)@.len(),
        0 <= lane < 8,
        old(c)@[j]@[lane] == old(a)@[i],
    ensures
        batches == 0 ==> final(a)@[i] == old(a)@[i],
        final(b)@[i] == final(a)@[i].mul_add_spec(
            of::<S>(10000001).div_spec(of(10000000)),
            of::<S>(9999999).div_spec(of(10000000)),
        ),
        final(c)@[j]@[lane] == final(a)@[i],
{
}

} // verus!
