//! Splitting heads over workers, and seeding them.
use crate::mat::{
    draw, lemma_draw_bound, next_state, sample, seed_state, state_after, word, Mat,
};
use crate::multihead::{are_filled_heads, head_seed, is_heads, is_partition};
use crate::scalar::{Lanes, Scalar};
use crate::simd::{is_attention, select_spec, simd_at, Cpu, Path};
use vstd::prelude::*;

verus! {

/// The attention of a head is one matrix: two results for the same inputs on the
/// same path hold the same elements.
pub proof fn attention_is_determined<S: Lanes>(
    a: Mat<S>,
    b: Mat<S>,
    path: Path,
    q: Mat<S>,
    k: Mat<S>,
    v: Mat<S>,
    causal: bool,
)
    requires
        is_attention(a, path, q, k, v, causal),
        is_attention(b, path, q, k, v, causal),
    ensures
        a.data@ == b.data@,
{
    let n = q.rows as int;
    let d = q.cols as int;
    assert forall|x: int| 0 <= x < n * d implies a.data@[x] == b.data@[x] by {
        assert(d > 0) by {
            if d == 0 {
                assert(n * d == 0) by (nonlinear_arith)
                    requires
                        d == 0,
                ;
            }
        }
        let i = x / d;
        let t = x % d;
        vstd::arithmetic::div_mod::lemma_fundamental_div_mod(x, d);
        vstd::arithmetic::mul::lemma_mul_is_commutative(d, i);
        vstd::arithmetic::div_mod::lemma_div_pos_is_pos(x, d);
        assert(i < n) by {
            if i >= n {
                assert(i * d >= n * d) by (nonlinear_arith)
                    requires
                        i >= n,
                        d > 0,
                ;
            }
        }
        assert(a.at(i, t) == simd_at(path, q, k, v, causal, i, t));
        assert(b.at(i, t) == simd_at(path, q, k, v, causal, i, t));
    }
    assert(a.data@ =~= b.data@);
}

/// However the heads were split, joining the workers' results in order gives
/// the attention of all heads in head order, as the serial loop does.
pub proof fn joined_chunks_are_all_heads<S: Lanes>(
    parts: Seq<Seq<Mat<S>>>,
    chunks: Seq<(usize, usize)>,
    chunk: int,
    cpu: Cpu,
    q: Seq<Mat<S>>,
    k: Seq<Mat<S>>,
    v: Seq<Mat<S>>,
    causal: bool,
)
    requires
        is_partition(chunks, q.len() as int, chunk),
        parts.len() == chunks.len(),
        forall|c: int|
            0 <= c < chunks.len() ==> is_heads(
                #[trigger] parts[c],
                cpu,
                q,
                k,
                v,
                causal,
                chunks[c].0 as int,
                chunks[c].1 as int,
            ),
    ensures
        is_heads(parts.flatten(), cpu, q, k, v, causal, 0, q.len() as int),
{
    let n = chunks.len();
    lemma_joined(parts, chunks, chunk, cpu, q, k, v, causal, n);
    assert(parts.take(n as int) =~= parts);
    if n == 0 {
        assert(0 * chunk == 0) by (nonlinear_arith);
    } else {
        assert(chunks[n - 1].0 == (n - 1) * chunk);
        assert((n - 1) * chunk + chunk == n * chunk) by (nonlinear_arith);
    }
}

/// The head after the last one in the first `count` chunks.
spec fn covered(chunks: Seq<(usize, usize)>, count: nat) -> int {
    if count == 0 {
        0
    } else {
        chunks[count - 1].1 as int
    }
}

proof fn lemma_joined<S: Lanes>(
    parts: Seq<Seq<Mat<S>>>,
    chunks: Seq<(usize, usize)>,
    chunk: int,
    cpu: Cpu,
    q: Seq<Mat<S>>,
    k: Seq<Mat<S>>,
    v: Seq<Mat<S>>,
    causal: bool,
    count: nat,
)
    requires
        is_partition(chunks, q.len() as int, chunk),
        parts.len() == chunks.len(),
        count <= chunks.len(),
        forall|c: int|
            0 <= c < chunks.len() ==> is_heads(
                #[trigger] parts[c],
                cpu,
                q,
                k,
                v,
                causal,
                chunks[c].0 as int,
                chunks[c].1 as int,
            ),
    ensures
        is_heads(
            parts.take(count as int).flatten(),
            cpu,
            q,
            k,
            v,
            causal,
            0,
            covered(chunks, count),
        ),
    decreases count,
{
    let prefix = parts.take(count as int);
    if count > 0 {
        let h = (count - 1) as nat;
        lemma_joined(parts, chunks, chunk, cpu, q, k, v, causal, h);
        assert(prefix.drop_last() =~= parts.take(h as int));
        prefix.lemma_flatten_and_flatten_alt_are_equivalent();
        parts.take(h as int).lemma_flatten_and_flatten_alt_are_equivalent();
        let done = parts.take(h as int).flatten();
        let part = parts[h as int];
        assert(prefix.flatten() =~= done + part);
        assert(chunks[h as int].0 == h * chunk);
        assert(covered(chunks, h) == chunks[h as int].0) by {
            if h == 0 {
                assert(0 * chunk == 0) by (nonlinear_arith);
            } else {
                assert(chunks[h - 1].0 == (h - 1) * chunk);
                assert((h - 1) * chunk + chunk == h * chunk) by (nonlinear_arith);
            }
        }
        let lo = chunks[h as int].0 as int;
        let hi = chunks[h as int].1 as int;
        assert forall|x: int| 0 <= x < hi implies is_attention(
            #[trigger] prefix.flatten()[x - 0],
            select_spec(cpu),
            q[x],
            k[x],
            v[x],
            causal,
        ) by {
            if x < lo {
                assert(is_attention(done[x - 0], select_spec(cpu), q[x], k[x], v[x], causal));
            } else {
                assert(is_attention(part[x - lo], select_spec(cpu), q[x], k[x], v[x], causal));
            }
        }
    }
}

/// No two heads start from the same seed, and so no two generators from the same
/// state.
pub proof fn heads_are_seeded_differently(seed: u64, g: int, h: int)
    requires
        0 <= g < h,
        h * 0x9E37 <= u64::MAX,
    ensures
        head_seed(seed, g) != head_seed(seed, h),
        seed_state(head_seed(seed, g)) != seed_state(head_seed(seed, h)),
{
}

/// Fewer heads are the first of more heads, and the first head is the data of
/// the seed itself: adding heads changes none that were there.
pub proof fn fewer_heads_are_the_first_heads<S: Scalar>(
    few: Seq<Mat<S>>,
    more: Seq<Mat<S>>,
    n: usize,
    d: usize,
    seed: u64,
)
    requires
        are_filled_heads(few, n, d, seed),
        are_filled_heads(more, n, d, seed),
        few.len() <= more.len(),
    ensures
        forall|h: int| 0 <= h < few.len() ==> (#[trigger] few[h]).data@ == more[h].data@,
        few.len() > 0 ==> forall|x: int|
            0 <= x < n * d ==> #[trigger] few[0].data@[x] == sample::<S>(seed, x as nat),
{
    assert forall|h: int| 0 <= h < few.len() implies (#[trigger] few[h]).data@
        == more[h].data@ by {
        assert(few[h].wf() && more[h].wf());
        assert(few[h].data@ =~= more[h].data@);
    }
}

/// Generators in different states stay in different states: the stream of one
/// seed never falls into step with the stream of another.
pub proof fn streams_stay_apart(a: u64, b: u64, k: nat)
    requires
        a != b,
    ensures
        state_after(a, k) != state_after(b, k),
    decreases k,
{
    if k > 0 {
        streams_stay_apart(a, b, (k - 1) as nat);
        lemma_step_is_injective(state_after(a, (k - 1) as nat), state_after(b, (k - 1) as nat));
    }
}

/// One xorshift step loses nothing.
proof fn lemma_step_is_injective(s: u64, t: u64)
    requires
        s != t,
    ensures
        next_state(s) != next_state(t),
{
    let (a, c) = (s ^ (s >> 12), t ^ (t >> 12));
    assert(a != c) by (bit_vector)
        requires
            s != t,
            a == s ^ (s >> 12),
            c == t ^ (t >> 12),
    ;
    let (b, d) = (a ^ (a << 25), c ^ (c << 25));
    assert(b != d) by (bit_vector)
        requires
            a != c,
            b == a ^ (a << 25),
            d == c ^ (c << 25),
    ;
    assert(b ^ (b >> 27) != d ^ (d >> 27)) by (bit_vector)
        requires
            b != d,
    ;
}

/// Different states give different words: the multiplier is odd, so nothing is
/// lost before the word is cut down to a draw.
pub proof fn words_tell_states_apart(s: u64, t: u64)
    requires
        s != t,
    ensures
        word(s) != word(t),
{
    lemma_word_undone(s);
    lemma_word_undone(t);
}

/// So no two heads are ever at the same word: what head `g` draws its element `k`
/// from is not what head `h` draws its own from. The draws themselves keep 24 of
/// the 64 bits, and single ones may agree.
pub proof fn heads_never_share_a_word(seed: u64, g: int, h: int, k: nat)
    requires
        0 <= g < h,
        h * 0x9E37 <= u64::MAX,
    ensures
        word(state_after(head_seed(seed, g), k)) != word(state_after(head_seed(seed, h), k)),
{
    heads_are_seeded_differently(seed, g, h);
    streams_stay_apart(head_seed(seed, g), head_seed(seed, h), k);
    words_tell_states_apart(
        state_after(head_seed(seed, g), k),
        state_after(head_seed(seed, h), k),
    );
}

/// Multiplying a word with the inverse of the multiplier gives the state back.
proof fn lemma_word_undone(s: u64)
    ensures
        (word(s) * 0x59071D96D81ECD35) % 0x1_0000_0000_0000_0000 == s,
{
    let (m, i, n) = (0x2545F4914F6CDD1Dint, 0x59071D96D81ECD35int, 0x1_0000_0000_0000_0000int);
    let w = (s * m) % n;
    vstd::arithmetic::div_mod::lemma_mul_mod_noop_left(s * m, i, n);
    assert(m * i == 0xCF65B3F17BF4A6B * n + 1) by (nonlinear_arith)
        requires
            m == 0x2545F4914F6CDD1D,
            i == 0x59071D96D81ECD35,
            n == 0x1_0000_0000_0000_0000,
    ;
    assert((s * m) * i == (s * 0xCF65B3F17BF4A6B) * n + s) by (nonlinear_arith)
        requires
            m * i == 0xCF65B3F17BF4A6B * n + 1,
    ;
    vstd::arithmetic::div_mod::lemma_mod_multiples_vanish(s * 0xCF65B3F17BF4A6B, s as int, n);
    vstd::arithmetic::mul::lemma_mul_is_commutative(s * 0xCF65B3F17BF4A6B, n);
    assert(word(s) == w);
}

/// A draw has 24 bits, so dividing it by 2^24 lands in [0, 1).
pub proof fn draws_have_24_bits(s: u64)
    ensures
        draw(s) < 0x100_0000,
{
    lemma_draw_bound(word(s));
}

} // verus!
