//! Exact arithmetic: the integers modulo 2^64, with a negative infinity below
//! them.
//!
//! Floating point cannot show that two kernels compute the same thing, only
//! that they land close together. In this ring the identities that the online
//! softmax rests on hold on the nose — `exp(x) = 1 + 2^32 * x` is an exponential
//! here, because `2^32 * 2^32` vanishes — so the baseline and the tiled kernel
//! have to produce the same words, and a test can compare them for equality. The
//! vector kernels do so where no whole vector of keys is exponentiated: their own
//! `exp` is a polynomial, and no exponential of this ring.
use crate::scalar::{Exact, Lanes, Measure, Scalar};
use crate::text::{
    cat, cat_spec, decimal, decimal_reads_back, decimal_spec, is_digit, lemma_run, parse_decimal,
    parse_decimal_spec, run_spec, same_text, split_at_char, views, zeros, zeros_spec,
};
use vstd::prelude::*;

verus! {

/// An integer modulo 2^64, or negative infinity.
#[derive(Clone, Copy, Debug, PartialEq, Eq, Structural)]
pub enum Ring64 {
    NegInfinity,
    Int(u64),
}

/// The number of residues.
pub open spec fn modulus() -> int {
    0x1_0000_0000_0000_0000
}

/// The residue of `x`.
pub open spec fn wrap(x: int) -> u64 {
    (x % modulus()) as u64
}

/// The largest integer whose square is at most `x`.
pub open spec fn is_root(x: u64, r: u64) -> bool {
    r * r <= x < (r + 1) * (r + 1)
}

/// The integer square root.
pub open spec fn root_spec(x: u64) -> u64 {
    choose|r: u64| is_root(x, r)
}

/// One Newton step towards the inverse of `b`: twice as many correct low bits.
pub open spec fn refine_spec(b: u64, x: u64) -> u64 {
    wrap(x * wrap(2 - wrap(b * x)))
}

/// The inverse of an odd `b`.
pub open spec fn inverse_spec(b: u64) -> u64 {
    refine_spec(b, refine_spec(b, refine_spec(b, refine_spec(b, refine_spec(b, b)))))
}

/// `a / b`: the whole quotient where `b` divides `a`, and `a` times the inverse of
/// `b` otherwise. Where an odd `b` divides `a` the two are the same.
pub open spec fn quotient_spec(a: u64, b: u64) -> u64 {
    if b != 0 && a % b == 0 {
        a / b
    } else {
        wrap(a * inverse_spec(b))
    }
}

/// One Newton step squares the error, up to a multiple of the modulus.
proof fn lemma_refine(b: u64, x: u64) -> (k: int)
    ensures
        1 - b * refine_spec(b, x) == (1 - b * x) * (1 - b * x) + k * modulus(),
{
    let m = modulus();
    let i = lemma_residue(b * x);
    let inner = wrap(b * x);
    let j = lemma_residue(2 - inner);
    let outer = wrap(2 - inner);
    let l = lemma_residue(x * outer);
    let y = refine_spec(b, x) as int;
    let e = b * x;
    let t = x * (i - j) - l;
    assert(x * outer == x * (2 - e) + (x * (i - j)) * m) by (nonlinear_arith)
        requires
            outer == 2 - e + (i - j) * m,
    ;
    assert(y == x * (2 - e) + t * m) by (nonlinear_arith)
        requires
            x * outer == x * (2 - e) + (x * (i - j)) * m,
            x * outer == y + l * m,
            t == x * (i - j) - l,
    ;
    assert(1 - b * y == (1 - e) * (1 - e) + (-(b * t)) * m) by (nonlinear_arith)
        requires
            y == x * (2 - e) + t * m,
            e == b * x,
    ;
    -(b * t)
}

/// If `p` divides the error of `x`, its square divides the error one step on.
proof fn lemma_refine_squares(b: u64, x: u64, q: int, p: int, r: int) -> (next: int)
    requires
        1 - b * x == q * p,
        (p * p) * r == modulus(),
    ensures
        1 - b * refine_spec(b, x) == next * (p * p),
{
    let k = lemma_refine(b, x);
    let e = 1 - b * x;
    let m = modulus();
    assert(e * e + k * m == (q * q + k * r) * (p * p)) by (nonlinear_arith)
        requires
            e == q * p,
            (p * p) * r == m,
    ;
    q * q + k * r
}

/// Every odd number has an inverse.
pub proof fn odd_numbers_have_inverses(b: u64)
    requires
        b % 2 == 1,
    ensures
        wrap(b * inverse_spec(b)) == 1,
{
    // An odd square is one more than a multiple of eight.
    let h = b as int / 2;
    assert(b == 2 * h + 1);
    let g = (h + 1) / 2;
    let t = if h % 2 == 0 {
        g * (h + 1)
    } else {
        h * g
    };
    assert(h * (h + 1) == 2 * t) by (nonlinear_arith)
        requires
            h == 2 * g && t == g * (h + 1) || h + 1 == 2 * g && t == h * g,
    ;
    assert(1 - b * b == (-t) * 8) by (nonlinear_arith)
        requires
            b == 2 * h + 1,
            h * (h + 1) == 2 * t,
    ;
    let x1 = refine_spec(b, b);
    let x2 = refine_spec(b, x1);
    let x3 = refine_spec(b, x2);
    let x4 = refine_spec(b, x3);
    let x5 = refine_spec(b, x4);
    let q1 = lemma_refine_squares(b, b, -t, 8, 0x400_0000_0000_0000);
    let q2 = lemma_refine_squares(b, x1, q1, 64, 0x10_0000_0000_0000);
    let q3 = lemma_refine_squares(b, x2, q2, 0x1000, 0x100_0000_0000);
    let q4 = lemma_refine_squares(b, x3, q3, 0x100_0000, 0x1_0000);
    let k = lemma_refine(b, x4);
    let e = 1 - b * x4;
    let n = q4 * q4 * 0x1_0000_0000 + k;
    assert(e == q4 * 0x1_0000_0000_0000);
    assert(e * e + k * 0x1_0000_0000_0000_0000 == n * 0x1_0000_0000_0000_0000) by (nonlinear_arith)
        requires
            e == q4 * 0x1_0000_0000_0000,
            n == q4 * q4 * 0x1_0000_0000 + k,
    ;
    assert(b * x5 == 1 + (-n) * modulus());
    lemma_congruent(b * x5, 1, -n);
}

/// Where `b` has an inverse, dividing by `b` is multiplying with it, whether `b`
/// divides `a` or not.
pub proof fn quotients_multiply_with_the_inverse(a: u64, b: u64)
    requires
        wrap(b * quotient_spec(1, b)) == 1,
    ensures
        quotient_spec(a, b) == wrap(a * quotient_spec(1, b)),
{
    let i = quotient_spec(1, b) as int;
    if b != 0 && a % b == 0 {
        let q = (a / b) as int;
        vstd::arithmetic::div_mod::lemma_fundamental_div_mod(a as int, b as int);
        assert(a * i == (b * i) * q) by (nonlinear_arith)
            requires
                a == b * q,
        ;
        lemma_wrap_mul(b * i, q);
        assert(1 * q == q);
    } else if b == 1 {
        assert(a % 1 == 0);
    } else if b != 0 {
        vstd::arithmetic::div_mod::lemma_small_mod(1, b as nat);
    }
}

impl Ring64 {
    /// Applies `f` to two integers; anything with negative infinity in it is
    /// negative infinity.
    pub open spec fn lift(self, other: Self, f: spec_fn(u64, u64) -> u64) -> Self {
        match (self, other) {
            (Ring64::Int(a), Ring64::Int(b)) => Ring64::Int(f(a, b)),
            _ => Ring64::NegInfinity,
        }
    }
}

/// Congruent integers have the same residue.
proof fn lemma_congruent(x: int, y: int, k: int)
    requires
        x == y + k * modulus(),
    ensures
        wrap(x) == wrap(y),
{
    assert((y + k * 0x1_0000_0000_0000_0000) % 0x1_0000_0000_0000_0000 == y
        % 0x1_0000_0000_0000_0000) by (nonlinear_arith);
}

/// An integer differs from its residue by a multiple of the modulus.
proof fn lemma_residue(x: int) -> (k: int)
    ensures
        x == wrap(x) + k * modulus(),
{
    x / modulus()
}

/// Taking the residue early does not change a product.
proof fn lemma_wrap_mul(x: int, y: int)
    ensures
        wrap(wrap(x) * y) == wrap(x * y),
        wrap(y * wrap(x)) == wrap(x * y),
{
    let k = lemma_residue(x);
    let w = wrap(x) as int;
    assert(x * y == w * y + (k * y) * modulus()) by (nonlinear_arith)
        requires
            x == w + k * modulus(),
    ;
    lemma_congruent(x * y, w * y, k * y);
    assert(y * w == w * y) by (nonlinear_arith);
}

/// Taking the residue early does not change a sum.
proof fn lemma_wrap_add(x: int, y: int)
    ensures
        wrap(wrap(x) + y) == wrap(x + y),
        wrap(y + wrap(x)) == wrap(x + y),
{
    let k = lemma_residue(x);
    lemma_congruent(x + y, wrap(x) + y, k);
}

fn plus(a: u64, b: u64) -> (r: u64)
    ensures
        r == wrap(a + b),
{
    a.wrapping_add(b)
}

fn minus(a: u64, b: u64) -> (r: u64)
    ensures
        r == wrap(a - b),
{
    a.wrapping_sub(b)
}

fn times(a: u64, b: u64) -> (r: u64)
    ensures
        r == wrap(a * b),
{
    a.wrapping_mul(b)
}

/// Two integers whose squares bracket `x` the same way are equal.
proof fn lemma_root_unique(x: u64, r: u64, s: u64)
    requires
        is_root(x, r),
        is_root(x, s),
    ensures
        r == s,
{
    if r < s {
        assert((r + 1) * (r + 1) <= s * s) by (nonlinear_arith)
            requires
                r + 1 <= s,
        ;
    } else if s < r {
        assert((s + 1) * (s + 1) <= r * r) by (nonlinear_arith)
            requires
                s + 1 <= r,
        ;
    }
}

/// The integer square root, by bisection.
fn root(x: u64) -> (r: u64)
    ensures
        r == root_spec(x),
        is_root(x, r),
{
    let mut lo: u64 = 0;
    let mut hi: u64 = 0x1_0000_0000;
    assert(x < hi * hi) by (nonlinear_arith)
        requires
            hi == 0x1_0000_0000,
    ;
    while hi - lo > 1
        invariant
            lo < hi <= 0x1_0000_0000,
            lo * lo <= x < hi * hi,
        decreases hi - lo,
    {
        let mid: u64 = lo + (hi - lo) / 2;
        assert(mid * mid <= 0xffff_ffff * 0xffff_ffff) by (nonlinear_arith)
            requires
                mid <= 0xffff_ffff,
        ;
        if mid * mid <= x {
            lo = mid;
        } else {
            hi = mid;
        }
    }
    proof {
        assert(is_root(x, lo));
        lemma_root_unique(x, lo, root_spec(x));
    }
    lo
}

fn refine(b: u64, x: u64) -> (r: u64)
    ensures
        r == refine_spec(b, x),
{
    times(x, minus(2, times(b, x)))
}

fn inverse(b: u64) -> (r: u64)
    ensures
        r == inverse_spec(b),
{
    refine(b, refine(b, refine(b, refine(b, refine(b, b)))))
}

fn quotient(a: u64, b: u64) -> (r: u64)
    ensures
        r == quotient_spec(a, b),
{
    if b != 0 && a % b == 0 {
        a / b
    } else {
        times(a, inverse(b))
    }
}

impl Scalar for Ring64 {
    open spec fn zero_spec() -> Self {
        Ring64::Int(0)
    }

    open spec fn one_spec() -> Self {
        Ring64::Int(1)
    }

    open spec fn neg_infinity_spec() -> Self {
        Ring64::NegInfinity
    }

    open spec fn from_usize_spec(n: usize) -> Self {
        Ring64::Int(n as u64)
    }

    open spec fn add_spec(self, other: Self) -> Self {
        self.lift(other, |a: u64, b: u64| wrap(a + b))
    }

    open spec fn sub_spec(self, other: Self) -> Self {
        self.lift(other, |a: u64, b: u64| wrap(a - b))
    }

    open spec fn mul_spec(self, other: Self) -> Self {
        self.lift(other, |a: u64, b: u64| wrap(a * b))
    }

    open spec fn div_spec(self, other: Self) -> Self {
        self.lift(other, |a: u64, b: u64| quotient_spec(a, b))
    }

    open spec fn mul_add_spec(self, factor: Self, addend: Self) -> Self {
        self.mul_spec(factor).add_spec(addend)
    }

    open spec fn sqrt_spec(self) -> Self {
        match self {
            Ring64::Int(a) => Ring64::Int(root_spec(a)),
            Ring64::NegInfinity => Ring64::NegInfinity,
        }
    }

    open spec fn exp_spec(self) -> Self {
        match self {
            Ring64::Int(a) => Ring64::Int(wrap(1 + 0x1_0000_0000 * a)),
            Ring64::NegInfinity => Ring64::Int(0),
        }
    }

    open spec fn abs_spec(self) -> Self {
        match self {
            Ring64::Int(a) => Ring64::Int(
                if wrap(0 - a) < a {
                    wrap(0 - a)
                } else {
                    a
                },
            ),
            Ring64::NegInfinity => Ring64::NegInfinity,
        }
    }

    open spec fn max_spec(self, other: Self) -> Self {
        if other.greater_than_spec(self) {
            other
        } else {
            self
        }
    }

    open spec fn greater_than_spec(self, other: Self) -> bool {
        match (self, other) {
            (Ring64::Int(a), Ring64::Int(b)) => a > b,
            (Ring64::Int(_), Ring64::NegInfinity) => true,
            _ => false,
        }
    }

    open spec fn equals_spec(self, other: Self) -> bool {
        self == other
    }

    open spec fn is_finite_spec(self) -> bool {
        self is Int
    }

    fn zero() -> (r: Self) {
        Ring64::Int(0)
    }

    fn one() -> (r: Self) {
        Ring64::Int(1)
    }

    fn neg_infinity() -> (r: Self) {
        Ring64::NegInfinity
    }

    fn from_usize(n: usize) -> (r: Self) {
        Ring64::Int(n as u64)
    }

    fn add(self, other: Self) -> (r: Self) {
        match (self, other) {
            (Ring64::Int(a), Ring64::Int(b)) => Ring64::Int(plus(a, b)),
            _ => Ring64::NegInfinity,
        }
    }

    fn sub(self, other: Self) -> (r: Self) {
        match (self, other) {
            (Ring64::Int(a), Ring64::Int(b)) => Ring64::Int(minus(a, b)),
            _ => Ring64::NegInfinity,
        }
    }

    fn mul(self, other: Self) -> (r: Self) {
        match (self, other) {
            (Ring64::Int(a), Ring64::Int(b)) => Ring64::Int(times(a, b)),
            _ => Ring64::NegInfinity,
        }
    }

    fn div(self, other: Self) -> (r: Self) {
        match (self, other) {
            (Ring64::Int(a), Ring64::Int(b)) => Ring64::Int(quotient(a, b)),
            _ => Ring64::NegInfinity,
        }
    }

    fn mul_add(self, factor: Self, addend: Self) -> (r: Self) {
        self.mul(factor).add(addend)
    }

    fn sqrt(self) -> (r: Self) {
        match self {
            Ring64::Int(a) => Ring64::Int(root(a)),
            Ring64::NegInfinity => Ring64::NegInfinity,
        }
    }

    fn exp(self) -> (r: Self) {
        match self {
            Ring64::Int(a) => {
                proof {
                    lemma_wrap_add(0x1_0000_0000 * a, 1);
                }
                Ring64::Int(plus(1, times(0x1_0000_0000, a)))
            },
            Ring64::NegInfinity => Ring64::Int(0),
        }
    }

    /// How far from zero, by the shorter way round.
    fn abs(self) -> (r: Self) {
        match self {
            Ring64::Int(a) => {
                let b = minus(0, a);
                Ring64::Int(
                    if b < a {
                        b
                    } else {
                        a
                    },
                )
            },
            Ring64::NegInfinity => Ring64::NegInfinity,
        }
    }

    fn max(self, other: Self) -> (r: Self) {
        if other.greater_than(self) {
            other
        } else {
            self
        }
    }

    fn greater_than(self, other: Self) -> (r: bool) {
        match (self, other) {
            (Ring64::Int(a), Ring64::Int(b)) => a > b,
            (Ring64::Int(_), Ring64::NegInfinity) => true,
            _ => false,
        }
    }

    fn equals(self, other: Self) -> (r: bool) {
        self == other
    }

    fn is_finite(self) -> (r: bool) {
        matches!(self, Ring64::Int(_))
    }
}

/// This ring has no logarithms and no fractions: the logarithmic constants are
/// one, and every number is its own nearest integer.
impl Lanes for Ring64 {
    open spec fn ln_2_spec() -> Self {
        Ring64::Int(1)
    }

    open spec fn log2_e_spec() -> Self {
        Ring64::Int(1)
    }

    open spec fn neg_spec(self) -> Self {
        Self::zero_spec().sub_spec(self)
    }

    open spec fn round_spec(self) -> Self {
        self
    }

    open spec fn to_i32_spec(self) -> i32 {
        match self {
            Ring64::Int(a) => a as i32,
            Ring64::NegInfinity => i32::MIN,
        }
    }

    open spec fn from_bits_spec(bits: u32) -> Self {
        Ring64::Int(bits as u64)
    }

    fn ln_2() -> (r: Self) {
        Ring64::Int(1)
    }

    fn log2_e() -> (r: Self) {
        Ring64::Int(1)
    }

    fn neg(self) -> (r: Self) {
        Self::zero().sub(self)
    }

    fn round(self) -> (r: Self) {
        self
    }

    fn to_i32(self) -> (r: i32) {
        match self {
            Ring64::Int(a) => a as i32,
            Ring64::NegInfinity => i32::MIN,
        }
    }

    fn from_bits(bits: u32) -> (r: Self) {
        Ring64::Int(bits as u64)
    }
}

/// The number of decimal digits of `n`, less one.
pub open spec fn digits_past_first(n: nat) -> nat
    decreases n,
{
    if n < 10 {
        0
    } else {
        1 + digits_past_first(n / 10)
    }
}

fn log10_floor(n: u64) -> (r: u64)
    ensures
        r == digits_past_first(n as nat),
    decreases n,
{
    if n < 10 {
        0
    } else {
        proof {
            lemma_digits_bound((n / 10) as nat);
        }
        1 + log10_floor(n / 10)
    }
}

proof fn lemma_digits_bound(n: nat)
    ensures
        digits_past_first(n) <= n,
    decreases n,
{
    if n >= 10 {
        lemma_digits_bound(n / 10);
    }
}

/// Ten to the power `k`, modulo 2^64. Powers from 64 on are multiples of 2^64.
pub open spec fn power_of_ten(k: nat) -> u64
    decreases k,
{
    if k == 0 {
        1
    } else {
        wrap(power_of_ten((k - 1) as nat) * 10)
    }
}

/// Integers: already whole, printed in decimal.
impl Measure for Ring64 {
    open spec fn max_value_spec() -> Self {
        Ring64::Int(u64::MAX)
    }

    open spec fn min_spec(self, other: Self) -> Self {
        if self.greater_than_spec(other) {
            other
        } else {
            self
        }
    }

    open spec fn at_most_spec(self, other: Self) -> bool {
        !self.greater_than_spec(other)
    }

    open spec fn floor_spec(self) -> Self {
        self
    }

    open spec fn ceil_spec(self) -> Self {
        self
    }

    open spec fn log10_spec(self) -> Self {
        match self {
            Ring64::Int(a) => Ring64::Int(digits_past_first(a as nat) as u64),
            Ring64::NegInfinity => Ring64::NegInfinity,
        }
    }

    open spec fn pow10_spec(self) -> Self {
        match self {
            Ring64::Int(a) => Ring64::Int(
                if a < 64 {
                    power_of_ten(a as nat)
                } else {
                    0
                },
            ),
            Ring64::NegInfinity => Ring64::Int(0),
        }
    }

    open spec fn fixed_spec(self, digits: nat) -> Seq<char> {
        match self {
            Ring64::Int(a) => if digits == 0 {
                decimal_spec(a as nat)
            } else {
                cat_spec(seq![decimal_spec(a as nat), "."@, zeros_spec(digits)])
            },
            Ring64::NegInfinity => "-inf"@,
        }
    }

    open spec fn parse_spec(text: Seq<char>) -> Option<Self> {
        if text == "-inf"@ {
            Some(Ring64::NegInfinity)
        } else {
            match parse_decimal_spec(text.take(run_spec(text, '.'))) {
                Some(a) => Some(Ring64::Int(a)),
                None => None,
            }
        }
    }

    fn max_value() -> (r: Self) {
        Ring64::Int(u64::MAX)
    }

    fn min(self, other: Self) -> (r: Self) {
        if self.greater_than(other) {
            other
        } else {
            self
        }
    }

    fn at_most(self, other: Self) -> (r: bool) {
        !self.greater_than(other)
    }

    fn floor(self) -> (r: Self) {
        self
    }

    fn ceil(self) -> (r: Self) {
        self
    }

    fn log10(self) -> (r: Self) {
        match self {
            Ring64::Int(a) => Ring64::Int(log10_floor(a)),
            Ring64::NegInfinity => Ring64::NegInfinity,
        }
    }

    fn pow10(self) -> (r: Self) {
        match self {
            Ring64::Int(a) => {
                if a >= 64 {
                    return Ring64::Int(0);
                }
                let mut r: u64 = 1;
                let mut k: u64 = 0;
                while k < a
                    invariant
                        k <= a,
                        r == power_of_ten(k as nat),
                    decreases a - k,
                {
                    r = times(r, 10);
                    k += 1;
                }
                Ring64::Int(r)
            },
            Ring64::NegInfinity => Ring64::Int(0),
        }
    }

    fn fixed(self, digits: usize) -> (r: String) {
        match self {
            Ring64::Int(a) => {
                let whole = decimal(a);
                if digits == 0 {
                    whole
                } else {
                    let tail = zeros(digits);
                    let pieces = vec![whole.as_str(), ".", tail.as_str()];
                    assert(views(pieces@) =~= seq![whole@, "."@, tail@]);
                    cat(pieces)
                }
            },
            Ring64::NegInfinity => "-inf".to_owned(),
        }
    }

    fn parse(text: &str) -> (r: Option<Self>) {
        if same_text(text, "-inf") {
            return Some(Ring64::NegInfinity);
        }
        let (whole, _) = split_at_char(text, '.');
        match parse_decimal(whole) {
            Some(a) => Some(Ring64::Int(a)),
            None => None,
        }
    }
}

/// Writing a number and reading it again gives the number, whatever the number
/// of digits.
pub proof fn ring_reads_back(x: Ring64, digits: nat)
    ensures
        Ring64::parse_spec(x.fixed_spec(digits)) == Some(x),
{
    reveal_strlit("-inf");
    reveal_strlit(".");
    let text = x.fixed_spec(digits);
    if let Ring64::Int(a) = x {
        let whole = decimal_spec(a as nat);
        decimal_reads_back(a);
        assert(forall|i: int| 0 <= i < whole.len() ==> is_digit(#[trigger] whole[i]));
        assert(is_digit(whole[0]));
        if digits > 0 {
            let pieces = seq![whole, "."@, zeros_spec(digits)];
            reveal_with_fuel(cat_spec, 4);
            assert(pieces.drop_last() =~= seq![whole, "."@]);
            assert(pieces.drop_last().drop_last() =~= seq![whole]);
            assert(pieces.drop_last().drop_last().drop_last() =~= Seq::empty());
            assert(text =~= whole + "."@ + zeros_spec(digits));
            assert(text[whole.len() as int] == '.');
        }
        assert(text.take(whole.len() as int) =~= whole);
        assert forall|i: int| 0 <= i < whole.len() implies #[trigger] text[i] != '.' by {
            assert(is_digit(whole[i]));
        }
        lemma_run(text, '.', whole.len() as int);
        assert(text[0] == whole[0]);
        assert("-inf"@[0] == '-');
    }
}

impl Exact for Ring64 {
    proof fn zero_is_finite() {
    }

    proof fn one_is_finite() {
    }

    proof fn add_is_finite(a: Self, b: Self) {
    }

    proof fn sub_is_finite(a: Self, b: Self) {
    }

    proof fn mul_is_finite(a: Self, b: Self) {
    }

    proof fn exp_is_finite(a: Self) {
    }

    proof fn reciprocal_is_finite(a: Self) {
    }

    proof fn add_commutes(a: Self, b: Self) {
    }

    proof fn add_associates(a: Self, b: Self, c: Self) {
        let (x, y, z) = (a->Int_0 as int, b->Int_0 as int, c->Int_0 as int);
        lemma_wrap_add(x + y, z);
        lemma_wrap_add(y + z, x);
    }

    proof fn add_zero(a: Self) {
    }

    proof fn mul_commutes(a: Self, b: Self) {
        let (x, y) = (a->Int_0 as int, b->Int_0 as int);
        assert(x * y == y * x) by (nonlinear_arith);
    }

    proof fn mul_associates(a: Self, b: Self, c: Self) {
        let (x, y, z) = (a->Int_0 as int, b->Int_0 as int, c->Int_0 as int);
        lemma_wrap_mul(x * y, z);
        lemma_wrap_mul(y * z, x);
        assert((x * y) * z == (y * z) * x) by (nonlinear_arith);
    }

    proof fn mul_one(a: Self) {
    }

    proof fn mul_zero(a: Self) {
    }

    proof fn mul_distributes(a: Self, b: Self, c: Self) {
        let (x, y, z) = (a->Int_0 as int, b->Int_0 as int, c->Int_0 as int);
        lemma_wrap_mul(y + z, x);
        lemma_wrap_add(x * y, wrap(x * z) as int);
        lemma_wrap_add(x * z, x * y);
        assert((y + z) * x == x * y + x * z) by (nonlinear_arith);
    }

    proof fn mul_add_fuses(a: Self, b: Self, c: Self) {
    }

    proof fn exp_chains(a: Self, b: Self, c: Self) {
        let (x, y, z) = (a->Int_0 as int, b->Int_0 as int, c->Int_0 as int);
        let e: int = 0x1_0000_0000;
        let (u, w) = (x - y, y - z);
        // Each exponential, without the inner residue.
        lemma_wrap_mul(x - z, e);
        lemma_wrap_add(e * wrap(x - z), 1);
        lemma_wrap_add((x - z) * e, 1);
        lemma_wrap_mul(u, e);
        lemma_wrap_add(e * wrap(u), 1);
        lemma_wrap_add(u * e, 1);
        lemma_wrap_mul(w, e);
        lemma_wrap_add(e * wrap(w), 1);
        lemma_wrap_add(w * e, 1);
        // Their product, without the inner residues.
        lemma_wrap_mul(1 + u * e, wrap(1 + w * e) as int);
        lemma_wrap_mul(1 + w * e, 1 + u * e);
        assert((1 + w * e) * (1 + u * e) == (1 + (x - z) * e) + (u * w) * modulus())
            by (nonlinear_arith)
            requires
                e * e == modulus(),
                u + w == x - z,
        ;
        lemma_congruent((1 + w * e) * (1 + u * e), 1 + (x - z) * e, u * w);
    }

    proof fn exp_of_nothing(a: Self) {
    }

    proof fn neg_infinity_is_not_finite() {
    }

    proof fn neg_infinity_is_least(a: Self) {
    }

    proof fn order_is_total(a: Self, b: Self) {
    }

    proof fn order_is_transitive(a: Self, b: Self, c: Self) {
    }

    proof fn max_is_larger(a: Self, b: Self) {
    }

    proof fn equals_is_equality(a: Self, b: Self) {
    }
}

} // verus!
