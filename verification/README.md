# flash_attn

Attention kernels in Verus: executable Rust with contracts that the verifier
proves. Three formulations of single-head scaled dot-product attention, under a
full or a causal mask:

1. **`naive`** — textbook three-pass attention. Materializes the full `[n x n]`
   score matrix.
2. **`tiled`** — tiles over the keys with a running (online) softmax, and never
   materializes `[n x n]`. Under a causal mask it skips whole tiles above the
   diagonal.
3. **`simd`** and **`avx512`** — the tiled kernel on 8 and 16 lanes, with a
   vectorized `exp`, a four-key dot product and an accumulator that stays in
   registers across a tile.

`multihead` batches heads and splits them over workers. `roofline` holds the
traffic model, the probes for the machine's two ceilings, the figure and its
dataset. `timing` interleaves the jobs that are compared with each other.

## What is proved

Every kernel is generic over its number type. A kernel's contract gives each
output element as a sequence of operations on that type, so it holds for floating
point as it is: nothing in it assumes that addition associates or that `exp` is
exact.

`laws` says what follows where the arithmetic *is* exact:

- the running state after any number of tiles is the softmax of the keys seen so
  far, and so the tiled kernel computes exactly what the baseline does, for every
  tile size and either mask;
- a vector kernel computes a weighted average of the same values, with weights
  from its own `exp`; where that is the true one for what a row hands it, the
  result is the baseline's, and a row with fewer keys than a vector has lanes
  hands it nothing;
- the weights of a row sum to one, and no exponent is ever positive;
- the order of the keys does not matter, and where the order of the numbers goes
  with their arithmetic, no output leaves the range of the values it averages.

And what holds of any arithmetic: a causal query sees nothing behind itself, and
its row is a row of the problem cut off after it; permuting the queries permutes
the outputs; every live key is scored exactly once; tiles of at least the whole
length are one tile; and splitting heads over workers gives the serial result
whatever the split.

The measurements have laws too: the best and the spread of a set of samples do not
depend on their order, both compute probes report the same ceiling for the same
times as long as their work can be counted, the roofline never falls and is flat
from the ridge on, and the causal mask adds no traffic.

And so does what is written: a dataset is one JSON object by JSON's own grammar and
reads back as it was written, and a figure has a marker for every point.

`ring` is arithmetic of that exact kind: integers modulo 2^64, in which
`1 + 2^32 x` is an exponential. Running `naive` and `tiled` on it makes their
outputs comparable word for word; the vector kernels join them as long as no whole
vector of keys is exponentiated, because their polynomial is no exponential of the
ring.

## Layout

```
src/scalar.rs      what the kernels ask of a number type
src/ring.rs        an exact number type
src/mat.rs         matrices, reproducible fill
src/score.rs       scores, softmax, weighted sums
src/naive.rs       the baseline
src/tiled.rs       online softmax, generic over how a tile is computed
src/lanes.rs       vectors of a fixed number of lanes
src/vexp.rs        exp of a vector
src/simd.rs        eight lanes, and the choice of path
src/avx512.rs      sixteen lanes
src/multihead.rs   heads, and how they are split over workers
src/flops.rs       FLOP counting
src/timing.rs      schedule, order statistics
src/sweep.rs       tile sizes
src/report.rs      lines of the benchmark tables
src/text.rs        text: pieces, columns, numbers, fields
src/roofline/      model, probes, dataset, figure
src/laws/          what holds of all this together
tests/             the same on floating point and on the ring
app/               floating point, clock, threads and files around the library
```

The binary measures and prints:

```
bench [--json]                 both masks, causal speedup, multi-head scaling
roofline [--from-json FILE]    docs/roofline.{svg,json}, or only the figure again
blocksweep                     tile size vs throughput
```
