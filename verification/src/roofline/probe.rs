//! The two ceilings, from timed probes.
//!
//! Running a probe and reading the clock happen outside; what to run, how often,
//! and what the times say is decided here.
//!
//! The compute probe is a dependency-free chain of FMAs that touches no memory
//! at all, so what it reports is what the FMA units actually retire on this part
//! — including any clock the part drops under sustained vector load. That makes
//! it a fairer ceiling than `cores * clock * lanes * 2`, which no real code
//! reaches.
//!
//! The bandwidth probe is a STREAM-style triad (`a = b + s*c`) over buffers far
//! larger than any last-level cache, so the number reflects DRAM rather than
//! cache.
use crate::lanes::fma;
use crate::roofline::{detected_isa, isa_spec, Machine};
use crate::scalar::{ratio, ratio_spec, Measure, Scalar};
use crate::simd::Cpu;
use crate::timing::{percent, percent_spec};
use vstd::prelude::*;

verus! {

/// Batch size in independent FMA lanes. Two constraints set this. It has to be
/// wide enough that the compiler vectorizes the portable loop — otherwise this
/// measures scalar throughput and the "ceiling" lands below the kernels it is
/// supposed to bound. And it has to keep enough FMAs in flight to cover the
/// latency of every issue port: a typical x86 core has two FMA ports at ~4
/// cycles latency, so fewer than 8 independent AVX2 accumulators measures
/// latency, not throughput, and reports roughly half the real peak. 64 lanes is
/// 8 ymm registers or 16 NEON registers — enough on both, spilling on neither.
pub const PEAK_WIDTH: usize = 64;

/// The same lanes, as vectors of eight.
pub const PEAK_VECTORS: usize = 8;

/// Batches of the first run.
pub const FIRST_BATCHES: usize = 4096;

/// A ceiling is a *best case*, so every probe takes the fastest of several runs
/// rather than one sample. This matters most on shared or virtualized hosts,
/// where an unlucky sample includes a neighbour's steal time and drags the roof
/// below the kernels it is supposed to bound.
pub const REPEATS: usize = 5;

/// 64 MB per buffer, 192 MB total — comfortably past any current LLC.
pub const TRIAD_LEN: usize = 16777216;

/// Two warm-up passes, not one: the first faults 192 MB of pages in, and the
/// second settles the TLB. Timing either of them makes a quiet machine look
/// contended.
pub const TRIAD_WARM_UPS: usize = 2;

/// Spread past which the compute ceiling is not worth trusting. The probe is a
/// pure register loop that touches no memory, so on a machine with a core to
/// itself it repeats to within a percent or two — which makes it a sharp
/// detector of stolen time on a shared vCPU.
pub const COMPUTE_NOISE_WARN_PCT: usize = 10;

/// Spread past which the bandwidth ceiling is not worth trusting. The probe
/// contends with the page cache, DRAM refresh and every other process on the
/// box, so 10-20% swing is ordinary even on a quiet machine and only a much
/// larger spread is alarming.
pub const BANDWIDTH_NOISE_WARN_PCT: usize = 25;

/// The largest of the samples, and at least zero.
pub open spec fn best_of<S: Scalar>(samples: Seq<S>) -> S
    decreases samples.len(),
{
    if samples.len() == 0 {
        S::zero_spec()
    } else {
        best_of(samples.drop_last()).max_spec(samples.last())
    }
}

/// The smallest of the samples.
pub open spec fn worst_of<S: Measure>(samples: Seq<S>) -> S
    decreases samples.len(),
{
    if samples.len() == 0 {
        S::max_value_spec()
    } else {
        worst_of(samples.drop_last()).min_spec(samples.last())
    }
}

/// The largest of the samples, and at least zero.
pub(crate) fn best<S: Scalar>(samples: &[S]) -> (r: S)
    ensures
        r == best_of(samples@),
{
    let mut r = S::zero();
    let mut i: usize = 0;
    while i < samples.len()
        invariant
            i <= samples@.len(),
            r == best_of(samples@.take(i as int)),
        decreases samples.len() - i,
    {
        assert(samples@.take(i + 1).drop_last() =~= samples@.take(i as int));
        r = r.max(samples[i]);
        i += 1;
    }
    assert(samples@.take(samples@.len() as int) =~= samples@);
    r
}

/// The smallest of the samples.
pub(crate) fn worst<S: Measure>(samples: &[S]) -> (r: S)
    ensures
        r == worst_of(samples@),
{
    let mut r = S::max_value();
    let mut i: usize = 0;
    while i < samples.len()
        invariant
            i <= samples@.len(),
            r == worst_of(samples@.take(i as int)),
        decreases samples.len() - i,
    {
        assert(samples@.take(i + 1).drop_last() =~= samples@.take(i as int));
        r = r.min(samples[i]);
        i += 1;
    }
    assert(samples@.take(samples@.len() as int) =~= samples@);
    r
}

/// Best and spread of a set of samples.
pub open spec fn summary_spec<S: Measure>(samples: Seq<S>) -> (S, S) {
    let best = best_of(samples);
    (best, percent_spec(best.sub_spec(worst_of(samples)), best))
}

/// Best and worst of a set of samples, reduced to (best, spread %).
pub fn summarize<S: Measure>(samples: &[S]) -> (r: (S, S))
    ensures
        r == summary_spec(samples@),
{
    let best = best(samples);
    let worst = worst(samples);
    (best, percent(best.sub(worst), best))
}

/// A timed run is long enough from a quarter of a second on.
pub open spec fn min_secs_spec<S: Scalar>() -> S {
    ratio_spec(1, 4)
}

/// GFLOP/s of `batches` batches of `width` FMA instructions, `flops` FLOPs each.
pub open spec fn peak_sample_spec<S: Scalar>(
    batches: usize,
    width: usize,
    flops: usize,
    secs: S,
) -> S {
    S::from_usize_spec(batches).mul_spec(S::from_usize_spec(width)).mul_spec(
        S::from_usize_spec(flops),
    ).div_spec(secs).div_spec(S::from_usize_spec(1000000000))
}

/// What one timed run does to a probe: too short a run only makes the next one
/// four times longer, a long enough one adds a sample.
pub open spec fn probe_step<S: Scalar>(
    width: usize,
    flops: usize,
    batches: nat,
    samples: Seq<S>,
    secs: S,
) -> (nat, Seq<S>) {
    if min_secs_spec::<S>().greater_than_spec(secs) {
        (4 * batches, samples)
    } else {
        (batches, samples.push(peak_sample_spec(batches as usize, width, flops, secs)))
    }
}

/// A probe's batch count and samples after runs of the given times.
pub open spec fn probe_after<S: Scalar>(width: usize, flops: usize, times: Seq<S>) -> (
    nat,
    Seq<S>,
)
    decreases times.len(),
{
    if times.len() == 0 {
        (FIRST_BATCHES as nat, Seq::empty())
    } else {
        let before = probe_after(width, flops, times.drop_last());
        probe_step(width, flops, before.0, before.1, times.last())
    }
}

/// One measurement of the compute ceiling, in progress.
///
/// Grows the batch count until one timed run lasts a quarter of a second, so the
/// measurement is meaningful on a 7 GFLOP/s core and on a 500 GFLOP/s one
/// without a hand-tuned iteration count for each.
pub struct Probe<S> {
    width: usize,
    flops: usize,
    batches: usize,
    samples: Vec<S>,
}

/// Where a measurement of the compute ceiling stands.
pub struct Stand<S> {
    /// FMA instructions in a batch.
    pub width: usize,
    /// FLOPs in one of them.
    pub flops: usize,
    /// Batches the next run should make.
    pub batches: usize,
    /// Long enough runs so far, in GFLOP/s.
    pub samples: Seq<S>,
}

impl<S: Scalar> Stand<S> {
    /// Before the first run.
    pub open spec fn start(width: usize, flops: usize) -> Self {
        Stand { width, flops, batches: FIRST_BATCHES, samples: Seq::empty() }
    }

    /// Whether a run of this length can be taken: the measurement is not over, and
    /// where the run was too short, a longer one can be counted.
    pub open spec fn accepts(self, secs: S) -> bool {
        &&& self.samples.len() < REPEATS
        &&& min_secs_spec::<S>().greater_than_spec(secs) ==> self.batches <= usize::MAX / 4
    }
}

impl<S> View for Probe<S> {
    type V = Stand<S>;

    closed spec fn view(&self) -> Stand<S> {
        Stand {
            width: self.width,
            flops: self.flops,
            batches: self.batches,
            samples: self.samples@,
        }
    }
}

impl<S: Measure> Probe<S> {
    /// One lane per instruction; one FMA is two FLOPs.
    pub fn portable() -> (r: Self)
        ensures
            r@ == Stand::<S>::start(PEAK_WIDTH, 2),
    {
        Probe { width: PEAK_WIDTH, flops: 2, batches: FIRST_BATCHES, samples: Vec::new() }
    }

    /// 8 lanes per vector, two FLOPs per FMA: the same total lane count.
    pub fn avx2() -> (r: Self)
        ensures
            r@ == Stand::<S>::start(PEAK_VECTORS, 16),
            r@.width * r@.flops == PEAK_WIDTH * 2,
    {
        Probe { width: PEAK_VECTORS, flops: 16, batches: FIRST_BATCHES, samples: Vec::new() }
    }

    /// The probe that a CPU can run: eight lanes per instruction where it has
    /// AVX2 and FMA.
    pub fn for_cpu(cpu: Cpu) -> (r: Self)
        ensures
            r@ == if cpu.x86_64 && cpu.avx2 && cpu.fma {
                Stand::<S>::start(PEAK_VECTORS, 16)
            } else {
                Stand::<S>::start(PEAK_WIDTH, 2)
            },
    {
        if cpu.x86_64 && cpu.avx2 && cpu.fma {
            Self::avx2()
        } else {
            Self::portable()
        }
    }

    /// FMA instructions in a batch.
    pub fn width(&self) -> (r: usize)
        ensures
            r == self@.width,
    {
        self.width
    }

    /// FLOPs in one of them.
    pub fn flops(&self) -> (r: usize)
        ensures
            r == self@.flops,
    {
        self.flops
    }

    /// Batches the next run should make.
    pub fn batches(&self) -> (r: usize)
        ensures
            r == self@.batches,
    {
        self.batches
    }

    /// Long enough runs so far, in GFLOP/s.
    pub fn samples(&self) -> (r: &[S])
        ensures
            r@ == self@.samples,
    {
        self.samples.as_slice()
    }

    /// Whether [`Probe::record`] can take a run of this length.
    pub fn accepts(&self, secs: S) -> (r: bool)
        ensures
            r == self@.accepts(secs),
    {
        self.samples.len() < REPEATS && (self.batches <= usize::MAX / 4 || !ratio::<S>(
            1,
            4,
        ).greater_than(secs))
    }

    /// Takes the time of a run of as many batches as it asked for. A run that was
    /// too short only makes the next one longer. The last long enough one gives
    /// the ceiling and its spread.
    pub fn record(&mut self, secs: S) -> (r: Option<(S, S)>)
        requires
            old(self)@.accepts(secs),
        ensures
            final(self)@.width == old(self)@.width,
            final(self)@.flops == old(self)@.flops,
            (final(self)@.batches as nat, final(self)@.samples) == probe_step(
                old(self)@.width,
                old(self)@.flops,
                old(self)@.batches as nat,
                old(self)@.samples,
                secs,
            ),
            r == if final(self)@.samples.len() == REPEATS {
                Some(summary_spec(final(self)@.samples))
            } else {
                None
            },
    {
        if ratio::<S>(1, 4).greater_than(secs) {
            self.batches = self.batches * 4;
            return None;
        }
        let work = S::from_usize(self.batches).mul(S::from_usize(self.width)).mul(
            S::from_usize(self.flops),
        );
        self.samples.push(work.div(secs).div(S::from_usize(1000000000)));
        if self.samples.len() == REPEATS {
            Some(summarize(self.samples.as_slice()))
        } else {
            None
        }
    }
}

/// `x` after `batches` fused multiply-adds.
pub open spec fn chain_spec<S: Scalar>(x: S, a: S, b: S, batches: nat) -> S
    decreases batches,
{
    if batches == 0 {
        x
    } else {
        chain_spec(x, a, b, (batches - 1) as nat).mul_add_spec(a, b)
    }
}

/// The factor of the chain: just above one, so no accumulator ever settles.
pub open spec fn chain_factor_spec<S: Scalar>() -> S {
    ratio_spec(10000001, 10000000)
}

/// The addend of the chain: just below one.
pub open spec fn chain_addend_spec<S: Scalar>() -> S {
    ratio_spec(9999999, 10000000)
}

/// The work of the portable compute probe: every accumulator through the chain.
pub fn fma_chain<S: Scalar>(acc: &mut [S], batches: usize)
    ensures
        final(acc)@.len() == old(acc)@.len(),
        forall|i: int|
            0 <= i < old(acc)@.len() ==> #[trigger] final(acc)@[i] == chain_spec(
                old(acc)@[i],
                chain_factor_spec(),
                chain_addend_spec(),
                batches as nat,
            ),
{
    let a: S = ratio(10000001, 10000000);
    let b: S = ratio(9999999, 10000000);
    let width = acc.len();
    let ghost start = acc@;
    let mut done: usize = 0;
    while done < batches
        invariant
            done <= batches,
            width == start.len(),
            acc@.len() == width,
            forall|i: int|
                0 <= i < width ==> #[trigger] acc@[i] == chain_spec(start[i], a, b, done as nat),
        decreases batches - done,
    {
        let mut i: usize = 0;
        while i < width
            invariant
                done < batches,
                i <= width,
                width == start.len(),
                acc@.len() == width,
                forall|j: int|
                    0 <= j < i ==> #[trigger] acc@[j] == chain_spec(
                        start[j],
                        a,
                        b,
                        (done + 1) as nat,
                    ),
                forall|j: int|
                    i <= j < width ==> #[trigger] acc@[j] == chain_spec(
                        start[j],
                        a,
                        b,
                        done as nat,
                    ),
            decreases width - i,
        {
            acc[i] = acc[i].mul_add(a, b);
            i += 1;
        }
        done += 1;
    }
}

/// The work of the vector compute probe: the same chain, eight lanes at a time.
pub fn fma_chain8<S: Scalar>(acc: &mut [[S; 8]], batches: usize)
    ensures
        final(acc)@.len() == old(acc)@.len(),
        forall|i: int, j: int|
            0 <= i < old(acc)@.len() && 0 <= j < 8 ==> #[trigger] final(acc)@[i]@[j]
                == chain_spec(
                old(acc)@[i]@[j],
                chain_factor_spec(),
                chain_addend_spec(),
                batches as nat,
            ),
{
    let a: S = ratio(10000001, 10000000);
    let b: S = ratio(9999999, 10000000);
    let va = [a; 8];
    let vb = [b; 8];
    let vectors = acc.len();
    let ghost start = acc@;
    let mut done: usize = 0;
    while done < batches
        invariant
            done <= batches,
            vectors == start.len(),
            acc@.len() == vectors,
            forall|j: int| 0 <= j < 8 ==> #[trigger] va@[j] == a,
            forall|j: int| 0 <= j < 8 ==> #[trigger] vb@[j] == b,
            forall|i: int, j: int|
                0 <= i < vectors && 0 <= j < 8 ==> #[trigger] acc@[i]@[j] == chain_spec(
                    start[i]@[j],
                    a,
                    b,
                    done as nat,
                ),
        decreases batches - done,
    {
        let mut i: usize = 0;
        while i < vectors
            invariant
                done < batches,
                i <= vectors,
                vectors == start.len(),
                acc@.len() == vectors,
                forall|j: int| 0 <= j < 8 ==> #[trigger] va@[j] == a,
                forall|j: int| 0 <= j < 8 ==> #[trigger] vb@[j] == b,
                forall|k: int, j: int|
                    0 <= k < i && 0 <= j < 8 ==> #[trigger] acc@[k]@[j] == chain_spec(
                        start[k]@[j],
                        a,
                        b,
                        (done + 1) as nat,
                    ),
                forall|k: int, j: int|
                    i <= k < vectors && 0 <= j < 8 ==> #[trigger] acc@[k]@[j] == chain_spec(
                        start[k]@[j],
                        a,
                        b,
                        done as nat,
                    ),
            decreases vectors - i,
        {
            acc[i] = fma(acc[i], va, vb);
            i += 1;
        }
        done += 1;
    }
}

/// One pass of the bandwidth probe: `a = b + s*c`, as far as all three reach.
pub fn triad<S: Scalar>(a: &mut [S], b: &[S], c: &[S], s: S)
    ensures
        final(a)@.len() == old(a)@.len(),
        forall|i: int|
            0 <= i < old(a)@.len() ==> #[trigger] final(a)@[i] == if i < b@.len() && i < c@.len() {
                b@[i].add_spec(s.mul_spec(c@[i]))
            } else {
                old(a)@[i]
            },
{
    let len = a.len();
    let ghost start = a@;
    let mut i: usize = 0;
    while i < len && i < b.len() && i < c.len()
        invariant
            i <= len,
            i <= b@.len(),
            i <= c@.len(),
            len == start.len(),
            a@.len() == len,
            forall|j: int| 0 <= j < i ==> #[trigger] a@[j] == b@[j].add_spec(s.mul_spec(c@[j])),
            forall|j: int| i <= j < len ==> #[trigger] a@[j] == start[j],
        decreases len - i,
    {
        a[i] = b[i].add(s.mul(c[i]));
        i += 1;
    }
}

/// GB/s of one pass over `len` elements: the three logical streams STREAM
/// counts. On most parts the write also incurs a read-for-ownership, so this is
/// a conservative lower bound on real traffic.
pub open spec fn bandwidth_sample_spec<S: Scalar>(len: usize, secs: S) -> S {
    S::from_usize_spec(3).mul_spec(S::from_usize_spec(len)).mul_spec(
        S::from_usize_spec(4),
    ).div_spec(secs).div_spec(S::from_usize_spec(1000000000))
}

/// The bandwidth ceiling and its spread, from the times of passes over `len`
/// elements.
pub fn bandwidth<S: Measure>(len: usize, secs: &[S]) -> (r: (S, S))
    ensures
        r == summary_spec(
            Seq::new(secs@.len(), |i: int| bandwidth_sample_spec(len, secs@[i])),
        ),
{
    let mut samples: Vec<S> = Vec::new();
    let ghost want = Seq::new(secs@.len(), |i: int| bandwidth_sample_spec(len, secs@[i]));
    let mut i: usize = 0;
    while i < secs.len()
        invariant
            i <= secs@.len(),
            samples@ == want.take(i as int),
            want == Seq::new(secs@.len(), |i: int| bandwidth_sample_spec(len, secs@[i])),
        decreases secs.len() - i,
    {
        let bytes = S::from_usize(3).mul(S::from_usize(len)).mul(S::from_usize(4));
        samples.push(bytes.div(secs[i]).div(S::from_usize(1000000000)));
        assert(samples@ =~= want.take(i + 1));
        i += 1;
    }
    assert(samples@ =~= want);
    summarize(samples.as_slice())
}

/// Whether the compute ceiling moved by more than a ceiling should while it was
/// measured.
pub open spec fn peak_is_noisy_spec<S: Measure>(m: Machine<S>) -> bool {
    m.peak_spread_pct.greater_than_spec(S::from_usize_spec(COMPUTE_NOISE_WARN_PCT))
}

/// The same for the bandwidth ceiling.
pub open spec fn bandwidth_is_noisy_spec<S: Measure>(m: Machine<S>) -> bool {
    m.bandwidth_spread_pct.greater_than_spec(S::from_usize_spec(BANDWIDTH_NOISE_WARN_PCT))
}

impl<S: Measure> Machine<S> {
    /// A machine, from what its probes gave.
    pub fn measured(arch: String, cpu: Cpu, peak: (S, S), bandwidth: (S, S)) -> (r: Self)
        ensures
            r.arch == arch,
            r.isa@ == isa_spec(cpu),
            r.peak_gflops == peak.0,
            r.peak_spread_pct == peak.1,
            r.bandwidth_gbs == bandwidth.0,
            r.bandwidth_spread_pct == bandwidth.1,
    {
        Machine {
            arch,
            isa: detected_isa(cpu),
            peak_gflops: peak.0,
            bandwidth_gbs: bandwidth.0,
            peak_spread_pct: peak.1,
            bandwidth_spread_pct: bandwidth.1,
        }
    }

    /// Whether the host was too noisy to trust the compute ceiling.
    pub fn peak_is_noisy(&self) -> (r: bool)
        ensures
            r == peak_is_noisy_spec(*self),
    {
        self.peak_spread_pct.greater_than(S::from_usize(COMPUTE_NOISE_WARN_PCT))
    }

    /// Whether the host was too noisy to trust the bandwidth ceiling.
    pub fn bandwidth_is_noisy(&self) -> (r: bool)
        ensures
            r == bandwidth_is_noisy_spec(*self),
    {
        self.bandwidth_spread_pct.greater_than(S::from_usize(BANDWIDTH_NOISE_WARN_PCT))
    }

    /// How far the compute ceiling moved by the time it was measured again, as a
    /// percentage. The points are plotted against the ceiling, so if the machine
    /// moved between the two, the figure compares numbers taken under different
    /// conditions.
    pub fn drift_pct(&self, again: S) -> (r: S)
        ensures
            r == percent_spec(again.sub_spec(self.peak_gflops).abs_spec(), self.peak_gflops),
    {
        percent(again.sub(self.peak_gflops).abs(), self.peak_gflops)
    }
}

} // verus!
