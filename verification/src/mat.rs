//! Row-major matrices, and the reproducible data that fills them.
use crate::scalar::Scalar;
use vstd::prelude::*;

verus! {

/// A row-major matrix. Kept deliberately simple so the kernels below read like
/// the math, not like a matrix library.
#[derive(Clone)]
pub struct Mat<S> {
    pub rows: usize,
    pub cols: usize,
    pub data: Vec<S>,
}

/// `s` with the elements from `at` on replaced by `part`.
pub open spec fn splice<S>(s: Seq<S>, at: int, part: Seq<S>) -> Seq<S> {
    s.subrange(0, at) + part + s.subrange(at + part.len(), s.len() as int)
}

impl<S> Mat<S> {
    /// The shape fields describe the data.
    pub open spec fn wf(self) -> bool {
        self.data@.len() == self.rows * self.cols
    }

    /// Element `c` of row `r`.
    pub open spec fn at(self, r: int, c: int) -> S {
        self.data@[r * self.cols + c]
    }

    /// Row `r` as a sequence.
    pub open spec fn row_seq(self, r: int) -> Seq<S> {
        self.data@.subrange(r * self.cols, (r + 1) * self.cols)
    }

    /// The first `n` rows exist and each has at least `d` elements.
    pub open spec fn covers(self, n: int, d: int) -> bool {
        n > 0 ==> self.cols >= d && n * self.cols <= self.data@.len()
    }
}

/// Row `r` lies inside the data of a matrix that has `n > r` rows.
pub(crate) proof fn lemma_row_bounds(r: int, n: int, cols: int)
    requires
        0 <= r < n,
        0 <= cols,
    ensures
        0 <= r * cols <= (r + 1) * cols <= n * cols,
        (r + 1) * cols == r * cols + cols,
{
    assert(0 <= r * cols <= (r + 1) * cols <= n * cols) by (nonlinear_arith)
        requires
            0 <= r < n,
            0 <= cols,
    ;
    assert((r + 1) * cols == r * cols + cols) by (nonlinear_arith);
}

/// Replacing row `r` gives that row the new elements and leaves the others.
pub(crate) proof fn lemma_splice_rows<S>(old_m: Mat<S>, new_m: Mat<S>, r: int, n: int, part: Seq<S>)
    requires
        0 <= r < n,
        n * old_m.cols <= old_m.data@.len(),
        new_m.cols == old_m.cols,
        part.len() == old_m.cols,
        new_m.data@ == splice(old_m.data@, r * old_m.cols, part),
    ensures
        new_m.data@.len() == old_m.data@.len(),
        new_m.row_seq(r) == part,
        forall|i: int| 0 <= i < n && i != r ==> #[trigger] new_m.row_seq(i) == old_m.row_seq(i),
{
    let c = old_m.cols as int;
    lemma_row_bounds(r, n, c);
    assert(new_m.row_seq(r) =~= part);
    assert forall|i: int| 0 <= i < n && i != r implies #[trigger] new_m.row_seq(i)
        == old_m.row_seq(i) by {
        lemma_row_bounds(i, n, c);
        if i < r {
            lemma_row_bounds(i, r, c);
        } else {
            lemma_row_bounds(r, i, c);
        }
        assert(new_m.row_seq(i) =~= old_m.row_seq(i));
    }
}

/// Element `t` of row `r` as a sequence is element `(r, t)` of the matrix.
pub(crate) proof fn lemma_row_at<S>(m: Mat<S>, r: int, n: int)
    requires
        0 <= r < n,
        n * m.cols <= m.data@.len(),
    ensures
        m.row_seq(r).len() == m.cols,
        forall|t: int| 0 <= t < m.cols ==> #[trigger] m.row_seq(r)[t] == m.at(r, t),
{
    lemma_row_bounds(r, n, m.cols as int);
}

/// `n` copies of `x`.
pub(crate) fn repeated<S: Scalar>(x: S, n: usize) -> (v: Vec<S>)
    ensures
        v@ == Seq::new(n as nat, |k: int| x),
{
    let mut v: Vec<S> = Vec::with_capacity(n);
    let mut k: usize = 0;
    while k < n
        invariant
            k <= n,
            v@ == Seq::new(k as nat, |k: int| x),
        decreases n - k,
    {
        v.push(x);
        assert(v@ =~= Seq::new((k + 1) as nat, |k: int| x));
        k += 1;
    }
    v
}

impl<S: Scalar> Mat<S> {
    /// The zero matrix of the given shape.
    pub fn zeros(rows: usize, cols: usize) -> (m: Self)
        requires
            rows * cols <= usize::MAX,
        ensures
            m.wf(),
            m.rows == rows,
            m.cols == cols,
            m.data@ == Seq::new((rows * cols) as nat, |k: int| S::zero_spec()),
    {
        Mat { rows, cols, data: repeated(S::zero(), rows * cols) }
    }

    /// Row `r`.
    pub fn row(&self, r: usize) -> (s: &[S])
        requires
            r < usize::MAX,
            (r + 1) * self.cols <= self.data@.len(),
        ensures
            s@ == self.row_seq(r as int),
            s@.len() == self.cols,
    {
        proof {
            assert(self.data@.len() == self.data.len());
            lemma_row_bounds(r as int, r + 1, self.cols as int);
        }
        &self.data[r * self.cols..(r + 1) * self.cols]
    }

    /// Row `r`, for writing.
    pub fn row_mut(&mut self, r: usize) -> (s: &mut [S])
        requires
            r < usize::MAX,
            (r + 1) * old(self).cols <= old(self).data@.len(),
        ensures
            s@ == old(self).row_seq(r as int),
            s@.len() == old(self).cols,
            final(self).rows == old(self).rows,
            final(self).cols == old(self).cols,
            final(s)@.len() == old(self).cols ==> final(self).data@ == splice(
                old(self).data@,
                r * old(self).cols,
                final(s)@,
            ),
    {
        proof {
            assert(self.data@.len() == self.data.len());
            lemma_row_bounds(r as int, r + 1, self.cols as int);
        }
        let lo: usize = r * self.cols;
        let cols = self.cols;
        let (_before, rest) = self.data.as_mut_slice().split_at_mut(lo);
        let (row, _after) = rest.split_at_mut(cols);
        row
    }
}

/// The state that a seed starts the generator in.
pub open spec fn seed_state(seed: u64) -> u64 {
    vstd::wrapping::u64_specs::wrapping_add(seed, 0x9E3779B97F4A7C15)
}

/// One xorshift step.
pub open spec fn next_state(s: u64) -> u64 {
    let a = s ^ (s >> 12);
    let b = a ^ (a << 25);
    b ^ (b >> 27)
}

/// The generator's state after `k` steps.
pub open spec fn state_after(seed: u64, k: nat) -> u64
    decreases k,
{
    if k == 0 {
        seed_state(seed)
    } else {
        next_state(state_after(seed, (k - 1) as nat))
    }
}

/// The 64-bit word that a state gives.
pub open spec fn word(s: u64) -> u64 {
    vstd::wrapping::u64_specs::wrapping_mul(s, 0x2545F4914F6CDD1D)
}

/// The 24 bits drawn from a state: the upper ones of its word.
pub open spec fn draw(s: u64) -> u64 {
    word(s) >> 40
}

/// A 24-bit draw spread over [-1, 1).
pub open spec fn spread_spec<S: Scalar>(bits: usize) -> S {
    S::from_usize_spec(bits).div_spec(S::from_usize_spec(16777216)).mul_spec(
        S::from_usize_spec(2),
    ).sub_spec(S::one_spec())
}

/// Element `k` of the data that `seed` fills a matrix with.
pub open spec fn sample<S: Scalar>(seed: u64, k: nat) -> S {
    spread_spec(draw(state_after(seed, k + 1)) as usize)
}

/// Deterministic pseudo-random fill so benchmarks and correctness tests are
/// reproducible.
pub fn filled<S: Scalar>(rows: usize, cols: usize, seed: u64) -> (m: Mat<S>)
    requires
        rows * cols <= usize::MAX,
    ensures
        m.wf(),
        m.rows == rows,
        m.cols == cols,
        forall|k: int| 0 <= k < rows * cols ==> #[trigger] m.data@[k] == sample::<S>(seed, k as nat),
{
    let n: usize = rows * cols;
    let mut data: Vec<S> = Vec::with_capacity(n);
    let mut s: u64 = seed.wrapping_add(0x9E3779B97F4A7C15);
    let mut k: usize = 0;
    while k < n
        invariant
            k <= n,
            data@.len() == k,
            s == state_after(seed, k as nat),
            forall|j: int| 0 <= j < k ==> #[trigger] data@[j] == sample::<S>(seed, j as nat),
        decreases n - k,
    {
        // xorshift* -> [-1, 1)
        s = s ^ (s >> 12);
        s = s ^ (s << 25);
        s = s ^ (s >> 27);
        let bits: u64 = s.wrapping_mul(0x2545F4914F6CDD1D) >> 40;
        proof {
            let w: u64 = vstd::wrapping::u64_specs::wrapping_mul(s, 0x2545F4914F6CDD1D);
            lemma_draw_bound(w);
        }
        let x = S::from_usize(bits as usize).div(S::from_usize(16777216));
        data.push(x.mul(S::from_usize(2)).sub(S::one()));
        k += 1;
    }
    Mat { rows, cols, data }
}

/// The top 24 bits of a word.
pub(crate) proof fn lemma_draw_bound(w: u64)
    ensures
        w >> 40 < 0x100_0000,
{
    assert(w >> 40 < 0x100_0000) by (bit_vector);
}

/// The largest absolute difference among the first `k` elements.
pub open spec fn abs_diff_max<S: Scalar>(a: Seq<S>, b: Seq<S>, k: nat) -> S
    decreases k,
{
    if k == 0 {
        S::zero_spec()
    } else {
        abs_diff_max(a, b, (k - 1) as nat).max_spec(a[k - 1].sub_spec(b[k - 1]).abs_spec())
    }
}

/// Max absolute difference between two matrices — used to check that the fast
/// kernels agree with the naive reference. Elements that only one of them has
/// are not compared.
pub fn max_abs_diff<S: Scalar>(a: &Mat<S>, b: &Mat<S>) -> (r: S)
    ensures
        r == abs_diff_max(
            a.data@,
            b.data@,
            if a.data@.len() <= b.data@.len() {
                a.data@.len()
            } else {
                b.data@.len()
            },
        ),
{
    let n = if a.data.len() <= b.data.len() {
        a.data.len()
    } else {
        b.data.len()
    };
    let mut r = S::zero();
    let mut k: usize = 0;
    while k < n
        invariant
            k <= n,
            n <= a.data@.len(),
            n <= b.data@.len(),
            r == abs_diff_max(a.data@, b.data@, k as nat),
        decreases n - k,
    {
        r = r.max(a.data[k].sub(b.data[k]).abs());
        k += 1;
    }
    r
}

} // verus!
