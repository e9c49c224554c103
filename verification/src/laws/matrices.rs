//! What matrices hold, how heads are handed out, and how far results lie apart.
use crate::laws::measures::{abs_is_a_distance, max_abs_diff_is_the_largest_difference};
use crate::laws::model::of;
use crate::laws::sums::finite_upto;
use crate::laws::terms::entry;
use crate::mat::{filled, max_abs_diff, sample, state_after, Mat};
use crate::multihead::{
    chunk_len, filled_heads, head_chunks, head_seed, heads_fit, join_chunks, workers,
};
use crate::scalar::{Exact, Scalar};
use crate::score::attends;
use vstd::prelude::*;

verus! {

/// The largest difference between two matrices of one size bounds the difference in
/// every place and is that in one of them. It is zero exactly between equal data, and
/// the same both ways.
pub proof fn results_lie_as_far_apart_as_their_furthest_elements<S: Exact>(
    a: &Mat<S>,
    b: &Mat<S>,
    off: S,
    back: S,
)
    requires
        call_ensures(max_abs_diff::<S>, (a, b), off),
        call_ensures(max_abs_diff::<S>, (b, a), back),
        a.data@.len() == b.data@.len(),
        abs_is_a_distance::<S>(),
        finite_upto(a.data@, a.data@.len() as int),
        finite_upto(b.data@, a.data@.len() as int),
    ensures
        forall|i: int|
            0 <= i < a.data@.len() ==> !(#[trigger] a.data@[i].sub_spec(
                b.data@[i],
            ).abs_spec()).greater_than_spec(off),
        a.data@.len() == 0 ==> off == S::zero_spec(),
        a.data@.len() > 0 ==> exists|i: int|
            0 <= i < a.data@.len() && #[trigger] a.data@[i].sub_spec(b.data@[i]).abs_spec() == off,
        off == S::zero_spec() <==> a.data@ == b.data@,
        off == back,
{
    max_abs_diff_is_the_largest_difference(a.data@, b.data@, a.data@.len());
    if off == S::zero_spec() {
        assert forall|i: int| 0 <= i < a.data@.len() implies a.data@[i] == b.data@[i] by {}
        assert(a.data@ =~= b.data@);
    }
}

/// A matrix of zeros has its shape, and zeros.
pub proof fn zeros_are_zeros<S: Scalar>(rows: usize, cols: usize, m: Mat<S>, i: int, t: int)
    requires
        call_ensures(Mat::<S>::zeros, (rows, cols), m),
        0 <= i < rows,
        0 <= t < cols,
    ensures
        m.rows == rows,
        m.cols == cols,
        m.data@.len() == rows * cols,
        entry(m, i, t) == S::zero_spec(),
{
    assert(0 <= i * cols + t < rows * cols) by (nonlinear_arith)
        requires
            0 <= i < rows,
            0 <= t < cols,
    ;
}

/// A row is its stretch of the data.
pub proof fn rows_are_stretches_of_the_data<S: Scalar>(
    m: &Mat<S>,
    r: usize,
    row: &[S],
    t: int,
)
    requires
        (r + 1) * m.cols <= m.data@.len(),
        call_ensures(Mat::<S>::row, (m, r), row),
        0 <= t < m.cols,
    ensures
        row@.len() == m.cols,
        row@[t] == entry(*m, r as int, t),
{
    assert(r * m.cols + m.cols == (r + 1) * m.cols) by (nonlinear_arith);
    assert(0 <= r * m.cols) by (nonlinear_arith);
}

/// One step of the generator: three shifts, each folded in.
pub open spec fn stirred(s: u64) -> u64 {
    let a = s ^ (s >> 12);
    let b = a ^ (a << 25);
    b ^ (b >> 27)
}

/// The generator's state at element `k` of the data of a seed.
pub open spec fn state_at(seed: u64, k: nat) -> u64
    decreases k,
{
    stirred(
        if k == 0 {
            vstd::wrapping::u64_specs::wrapping_add(seed, 0x9E3779B97F4A7C15)
        } else {
            state_at(seed, (k - 1) as nat)
        },
    )
}

/// Element `k` of the data of a seed, as a whole number below 2^24.
pub open spec fn drawn(seed: u64, k: nat) -> u64 {
    vstd::wrapping::u64_specs::wrapping_mul(state_at(seed, k), 0x2545F4914F6CDD1D) >> 40
}

proof fn lemma_state(seed: u64, k: nat)
    ensures
        state_at(seed, k) == state_after(seed, k + 1),
    decreases k,
{
    if k > 0 {
        lemma_state(seed, (k - 1) as nat);
    } else {
        reveal_with_fuel(state_after, 2);
    }
}

/// The data of a seed, element by element: a draw of 24 bits over 2^24, times two,
/// less one. Where the quotient is exact, the element is one less than twice a number
/// which times 2^24 is the draw.
pub proof fn data_are_draws_of_the_seed<S: Scalar>(
    rows: usize,
    cols: usize,
    seed: u64,
    m: Mat<S>,
    k: nat,
)
    requires
        call_ensures(filled::<S>, (rows, cols, seed), m),
        k < rows * cols,
    ensures
        m.rows == rows,
        m.cols == cols,
        m.data@.len() == rows * cols,
        m.data@[k as int] == of::<S>(drawn(seed, k) as int).div_spec(of(16777216)).mul_spec(
            of(2),
        ).sub_spec(S::one_spec()),
{
    lemma_state(seed, k);
    assert(m.data@[k as int] == sample::<S>(seed, k));
}

/// Each head holds the data of its own seed, forty thousand and some apart, and the
/// first that of the seed itself.
pub proof fn heads_hold_the_data_of_their_seeds<S: Scalar>(
    heads: usize,
    n: usize,
    d: usize,
    seed: u64,
    out: Vec<Mat<S>>,
    h: int,
    own: u64,
    alone: Mat<S>,
)
    requires
        call_ensures(filled_heads::<S>, (heads, n, d, seed), out),
        0 <= h < heads,
        h * 40503 <= u64::MAX,
        own == vstd::wrapping::u64_specs::wrapping_add(seed, (h * 40503) as u64),
        call_ensures(filled::<S>, (n, d, own), alone),
    ensures
        out@.len() == heads,
        out@[h].rows == n,
        out@[h].cols == d,
        out@[h].data@ == alone.data@,
        h == 0 ==> own == seed,
{
    assert(out@[h].wf());
    assert(own == head_seed(seed, h));
    assert forall|x: int| 0 <= x < n * d implies out@[h].data@[x] == alone.data@[x] by {
        assert(out@[h].data@[x] == sample::<S>(own, x as nat));
    }
    assert(out@[h].data@ =~= alone.data@);
}

/// Heads are handed out in contiguous shares from the first to the last, none empty
/// and none longer than an even share rounded up, to no more workers than threads or
/// heads.
pub proof fn shares_cover_the_heads_in_order(
    heads: usize,
    threads: usize,
    shares: Vec<(usize, usize)>,
    c: int,
)
    requires
        call_ensures(head_chunks, (heads, threads), shares),
    ensures
        heads == 0 <==> shares@.len() == 0,
        heads > 0 ==> shares@[0].0 == 0 && shares@.last().1 == heads,
        0 <= c < shares@.len() ==> shares@[c].0 < shares@[c].1 <= heads,
        0 <= c < shares@.len() - 1 ==> shares@[c].1 == shares@[c + 1].0,
        0 <= c < shares@.len() && threads > 0 ==> (shares@[c].1 - shares@[c].0 - 1) * threads
            < heads,
        threads > 0 ==> shares@.len() <= threads,
        threads <= 1 ==> shares@.len() <= 1,
        shares@.len() <= heads,
{
    let s = shares@;
    let n = heads as int;
    let w = workers(n, threads as int);
    let len = chunk_len(n, threads as int);
    let k = s.len() as int;
    vstd::arithmetic::div_mod::lemma_fundamental_div_mod(n + w - 1, w);
    vstd::arithmetic::mul::lemma_mul_is_commutative(w, len);
    vstd::arithmetic::div_mod::lemma_mod_bound(n + w - 1, w);
    if k > 0 {
        assert(s[0].0 == 0 * len);
        assert(0 * len == 0) by (nonlinear_arith);
        assert(s[k - 1].0 == (k - 1) * len);
        assert((k - 1) * len + len == k * len) by (nonlinear_arith);
        if s[k - 1].1 != n {
            assert(s[k - 1].1 == (k - 1) * len + len);
        }
        assert(s[k - 1].0 < s[k - 1].1);
    } else {
        assert(0 * len == 0) by (nonlinear_arith);
    }
    if 0 <= c < k {
        assert(s[c].0 == c * len);
        // No share is longer than an even one rounded up.
        assert(s[c].1 - s[c].0 <= len);
        let t = threads as int;
        if t > 0 {
            let size = s[c].1 - s[c].0;
            assert((size - 1) * w < n) by (nonlinear_arith)
                requires
                    0 < size <= len,
                    w > 0,
                    len * w <= n + w - 1,
            ;
            if w < t {
                // Fewer workers than threads: one each, or none to share.
                assert(w == n || n <= 1 && w == 1);
                assert(size == 1) by {
                    if w == n && n > 1 {
                        assert(len == 1) by (nonlinear_arith)
                            requires
                                len * n <= n + n - 1,
                                len * n > n + n - 1 - n,
                                n > 1,
                        ;
                    } else {
                        assert(n <= 1);
                    }
                }
                assert((size - 1) * t == 0) by (nonlinear_arith)
                    requires
                        size == 1,
                ;
            } else {
                assert(t == w || t <= 1);
                if t != w {
                    assert(t == 1 && w == 1);
                }
            }
        }
    }
    if 0 <= c < k - 1 {
        assert(s[c].0 == c * len && s[c + 1].0 == (c + 1) * len);
        assert((c + 1) * len == c * len + len) by (nonlinear_arith);
        assert(s[c + 1].0 < s[c + 1].1);
    }
}

/// Workers' results, one after another.
pub open spec fn strung<S>(parts: Seq<Vec<Mat<S>>>, k: nat) -> Seq<Mat<S>>
    decreases k,
{
    if k == 0 {
        Seq::empty()
    } else {
        strung(parts, (k - 1) as nat) + parts[k - 1]@
    }
}

/// Joining keeps the workers' results in the order the heads were handed out.
pub proof fn joining_keeps_the_order<S: Scalar>(parts: Vec<Vec<Mat<S>>>, out: Vec<Mat<S>>)
    requires
        call_ensures(join_chunks::<S>, (parts,), out),
    ensures
        out@ == strung(parts@, parts@.len()),
{
    let all = parts@.map_values(|p: Vec<Mat<S>>| p@);
    lemma_strung(parts@, parts@.len());
    assert(all.take(parts@.len() as int) =~= all);
}

proof fn lemma_strung<S>(parts: Seq<Vec<Mat<S>>>, k: nat)
    requires
        k <= parts.len(),
    ensures
        strung(parts, k) == parts.map_values(|p: Vec<Mat<S>>| p@).take(k as int).flatten(),
    decreases k,
{
    let all = parts.map_values(|p: Vec<Mat<S>>| p@);
    let prefix = all.take(k as int);
    if k == 0 {
        assert(prefix =~= Seq::empty());
    } else {
        lemma_strung(parts, (k - 1) as nat);
        assert(prefix.drop_last() =~= all.take(k - 1));
        prefix.lemma_flatten_and_flatten_alt_are_equivalent();
        all.take(k - 1).lemma_flatten_and_flatten_alt_are_equivalent();
    }
}

/// Heads fit where there are as many of each kind, and where in every head with
/// queries the data of all three reach as far as the queries need, and each is at
/// least as wide.
pub proof fn heads_fit_where_their_data_reach<S: Scalar>(
    q: &[Mat<S>],
    k: &[Mat<S>],
    v: &[Mat<S>],
    fit: bool,
)
    requires
        call_ensures(heads_fit::<S>, (q, k, v), fit),
    ensures
        fit <==> q@.len() == k@.len() && q@.len() == v@.len() && forall|h: int|
            0 <= h < q@.len() ==> reaches((#[trigger] q@[h]), k@[h], v@[h]),
{
    if q@.len() == k@.len() && q@.len() == v@.len() {
        assert forall|h: int| 0 <= h < q@.len() implies reaches((#[trigger] q@[h]), k@[h], v@[h])
            == attends(q@[h], k@[h], v@[h]) by {}
        if fit {
            assert forall|h: int| 0 <= h < q@.len() implies reaches(
                (#[trigger] q@[h]),
                k@[h],
                v@[h],
            ) by {
                assert(attends(q@[h], k@[h], v@[h]));
            }
        } else {
            let h = choose|h: int|
                0 <= h < q@.len() && !(#[trigger] attends(q@[h], k@[h], v@[h]));
            assert(!reaches(q@[h], k@[h], v@[h]));
        }
    }
}

/// The data of one head reach as far as its queries need.
pub open spec fn reaches<S>(q: Mat<S>, k: Mat<S>, v: Mat<S>) -> bool {
    &&& q.rows * q.cols <= usize::MAX
    &&& q.rows > 0 ==> {
        &&& k.cols >= q.cols
        &&& v.cols >= q.cols
        &&& q.rows * q.cols <= q.data@.len()
        &&& q.rows * k.cols <= k.data@.len()
        &&& q.rows * v.cols <= v.data@.len()
    }
}

} // verus!
