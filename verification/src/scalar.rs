//! The arithmetic the kernels run on.
//!
//! Every kernel is generic over a [`Scalar`], so the same verified code runs on
//! hardware floating point and on the exact arithmetic of [`crate::ring`].
//! A contract says *which* operations a kernel performs and in *which* order;
//! it never assumes that addition is associative or that `exp` is exact. Where
//! those identities do hold, [`Exact`] says so, and the laws in
//! [`crate::laws`] follow from it.
use vstd::prelude::*;

verus! {

/// A number type: the operations that attention needs, each a function of its
/// operands.
///
/// The `_spec` functions name those functions in contracts. A type defined in
/// verified code overrides them with what its operations compute; for a type
/// defined elsewhere they stay abstract, and its operations only have to be
/// deterministic.
pub trait Scalar: Copy {
    /// The additive identity.
    closed spec fn zero_spec() -> Self {
        arbitrary()
    }

    /// The multiplicative identity.
    closed spec fn one_spec() -> Self {
        arbitrary()
    }

    /// The value a running maximum starts from.
    closed spec fn neg_infinity_spec() -> Self {
        arbitrary()
    }

    /// The integer `n`, rounded to this type.
    closed spec fn from_usize_spec(n: usize) -> Self {
        arbitrary()
    }

    /// `self + other`.
    closed spec fn add_spec(self, other: Self) -> Self {
        arbitrary()
    }

    /// `self - other`.
    closed spec fn sub_spec(self, other: Self) -> Self {
        arbitrary()
    }

    /// `self * other`.
    closed spec fn mul_spec(self, other: Self) -> Self {
        arbitrary()
    }

    /// `self / other`.
    closed spec fn div_spec(self, other: Self) -> Self {
        arbitrary()
    }

    /// `self * factor + addend`, rounded once.
    closed spec fn mul_add_spec(self, factor: Self, addend: Self) -> Self {
        arbitrary()
    }

    /// The square root.
    closed spec fn sqrt_spec(self) -> Self {
        arbitrary()
    }

    /// The exponential.
    closed spec fn exp_spec(self) -> Self {
        arbitrary()
    }

    /// The absolute value.
    closed spec fn abs_spec(self) -> Self {
        arbitrary()
    }

    /// The larger of two values.
    closed spec fn max_spec(self, other: Self) -> Self {
        arbitrary()
    }

    /// Whether `self` compares greater than `other`.
    closed spec fn greater_than_spec(self, other: Self) -> bool {
        arbitrary()
    }

    /// Whether `self` compares equal to `other`.
    closed spec fn equals_spec(self, other: Self) -> bool {
        arbitrary()
    }

    /// Whether `self` is an ordinary number: not an infinity, not a NaN.
    closed spec fn is_finite_spec(self) -> bool {
        arbitrary()
    }

    fn zero() -> (r: Self)
        ensures
            r == Self::zero_spec(),
    ;

    fn one() -> (r: Self)
        ensures
            r == Self::one_spec(),
    ;

    fn neg_infinity() -> (r: Self)
        ensures
            r == Self::neg_infinity_spec(),
    ;

    fn from_usize(n: usize) -> (r: Self)
        ensures
            r == Self::from_usize_spec(n),
    ;

    fn add(self, other: Self) -> (r: Self)
        ensures
            r == self.add_spec(other),
    ;

    fn sub(self, other: Self) -> (r: Self)
        ensures
            r == self.sub_spec(other),
    ;

    fn mul(self, other: Self) -> (r: Self)
        ensures
            r == self.mul_spec(other),
    ;

    fn div(self, other: Self) -> (r: Self)
        ensures
            r == self.div_spec(other),
    ;

    fn mul_add(self, factor: Self, addend: Self) -> (r: Self)
        ensures
            r == self.mul_add_spec(factor, addend),
    ;

    fn sqrt(self) -> (r: Self)
        ensures
            r == self.sqrt_spec(),
    ;

    fn exp(self) -> (r: Self)
        ensures
            r == self.exp_spec(),
    ;

    fn abs(self) -> (r: Self)
        ensures
            r == self.abs_spec(),
    ;

    fn max(self, other: Self) -> (r: Self)
        ensures
            r == self.max_spec(other),
    ;

    fn greater_than(self, other: Self) -> (r: bool)
        ensures
            r == self.greater_than_spec(other),
    ;

    fn equals(self, other: Self) -> (r: bool)
        ensures
            r == self.equals_spec(other),
    ;

    fn is_finite(self) -> (r: bool)
        ensures
            r == self.is_finite_spec(),
    ;
}

/// `num / den`: how a fraction that is not a whole number is written down.
pub open spec fn ratio_spec<S: Scalar>(num: usize, den: usize) -> S {
    S::from_usize_spec(num).div_spec(S::from_usize_spec(den))
}

/// `num / den`.
pub(crate) fn ratio<S: Scalar>(num: usize, den: usize) -> (r: S)
    ensures
        r == ratio_spec::<S>(num, den),
{
    S::from_usize(num).div(S::from_usize(den))
}

/// What a vectorized exponential needs besides [`Scalar`]: access to the
/// binary representation of a number.
pub trait Lanes: Scalar {
    /// The natural logarithm of two.
    closed spec fn ln_2_spec() -> Self {
        arbitrary()
    }

    /// The base-two logarithm of e.
    closed spec fn log2_e_spec() -> Self {
        arbitrary()
    }

    /// `-self`.
    closed spec fn neg_spec(self) -> Self {
        arbitrary()
    }

    /// The nearest integer, ties to even.
    closed spec fn round_spec(self) -> Self {
        arbitrary()
    }

    /// The nearest 32-bit integer.
    closed spec fn to_i32_spec(self) -> i32 {
        arbitrary()
    }

    /// The number with the given 32-bit representation.
    closed spec fn from_bits_spec(bits: u32) -> Self {
        arbitrary()
    }

    fn ln_2() -> (r: Self)
        ensures
            r == Self::ln_2_spec(),
    ;

    fn log2_e() -> (r: Self)
        ensures
            r == Self::log2_e_spec(),
    ;

    fn neg(self) -> (r: Self)
        ensures
            r == self.neg_spec(),
    ;

    fn round(self) -> (r: Self)
        ensures
            r == self.round_spec(),
    ;

    fn to_i32(self) -> (r: i32)
        ensures
            r == self.to_i32_spec(),
    ;

    fn from_bits(bits: u32) -> (r: Self)
        ensures
            r == Self::from_bits_spec(bits),
    ;
}

/// What measuring and plotting needs besides [`Scalar`].
pub trait Measure: Scalar {
    /// The largest finite value.
    closed spec fn max_value_spec() -> Self {
        arbitrary()
    }

    /// The smaller of two values.
    closed spec fn min_spec(self, other: Self) -> Self {
        arbitrary()
    }

    /// Whether `self` compares less than or equal to `other`.
    closed spec fn at_most_spec(self, other: Self) -> bool {
        arbitrary()
    }

    /// The largest integer that is not greater.
    closed spec fn floor_spec(self) -> Self {
        arbitrary()
    }

    /// The smallest integer that is not less.
    closed spec fn ceil_spec(self) -> Self {
        arbitrary()
    }

    /// The base-ten logarithm.
    closed spec fn log10_spec(self) -> Self {
        arbitrary()
    }

    /// Ten to this power.
    closed spec fn pow10_spec(self) -> Self {
        arbitrary()
    }

    /// The value as text, with `digits` digits after the decimal point.
    closed spec fn fixed_spec(self, digits: nat) -> Seq<char> {
        arbitrary()
    }

    /// The value that a text writes, if it writes one.
    closed spec fn parse_spec(text: Seq<char>) -> Option<Self> {
        arbitrary()
    }

    fn max_value() -> (r: Self)
        ensures
            r == Self::max_value_spec(),
    ;

    fn min(self, other: Self) -> (r: Self)
        ensures
            r == self.min_spec(other),
    ;

    fn at_most(self, other: Self) -> (r: bool)
        ensures
            r == self.at_most_spec(other),
    ;

    fn floor(self) -> (r: Self)
        ensures
            r == self.floor_spec(),
    ;

    fn ceil(self) -> (r: Self)
        ensures
            r == self.ceil_spec(),
    ;

    fn log10(self) -> (r: Self)
        ensures
            r == self.log10_spec(),
    ;

    fn pow10(self) -> (r: Self)
        ensures
            r == self.pow10_spec(),
    ;

    fn fixed(self, digits: usize) -> (r: String)
        ensures
            r@ == self.fixed_spec(digits as nat),
    ;

    fn parse(text: &str) -> (r: Option<Self>)
        ensures
            r == Self::parse_spec(text@),
    ;
}

/// Arithmetic in which the identities behind the online softmax hold exactly:
/// a commutative ring with a total order, and an exponential that turns
/// differences into quotients. Floating point only approximates these.
///
/// Negative infinity sits below every finite number and is not itself finite.
pub trait Exact: Scalar {
    proof fn zero_is_finite()
        ensures
            Self::zero_spec().is_finite_spec(),
    ;

    proof fn one_is_finite()
        ensures
            Self::one_spec().is_finite_spec(),
    ;

    proof fn add_is_finite(a: Self, b: Self)
        requires
            a.is_finite_spec(),
            b.is_finite_spec(),
        ensures
            a.add_spec(b).is_finite_spec(),
    ;

    proof fn sub_is_finite(a: Self, b: Self)
        requires
            a.is_finite_spec(),
            b.is_finite_spec(),
        ensures
            a.sub_spec(b).is_finite_spec(),
    ;

    proof fn mul_is_finite(a: Self, b: Self)
        requires
            a.is_finite_spec(),
            b.is_finite_spec(),
        ensures
            a.mul_spec(b).is_finite_spec(),
    ;

    proof fn exp_is_finite(a: Self)
        requires
            a.is_finite_spec(),
        ensures
            a.exp_spec().is_finite_spec(),
    ;

    proof fn reciprocal_is_finite(a: Self)
        requires
            a.is_finite_spec(),
            a != Self::zero_spec(),
        ensures
            Self::one_spec().div_spec(a).is_finite_spec(),
    ;

    proof fn add_commutes(a: Self, b: Self)
        requires
            a.is_finite_spec(),
            b.is_finite_spec(),
        ensures
            a.add_spec(b) == b.add_spec(a),
    ;

    proof fn add_associates(a: Self, b: Self, c: Self)
        requires
            a.is_finite_spec(),
            b.is_finite_spec(),
            c.is_finite_spec(),
        ensures
            a.add_spec(b).add_spec(c) == a.add_spec(b.add_spec(c)),
    ;

    proof fn add_zero(a: Self)
        requires
            a.is_finite_spec(),
        ensures
            a.add_spec(Self::zero_spec()) == a,
    ;

    proof fn mul_commutes(a: Self, b: Self)
        requires
            a.is_finite_spec(),
            b.is_finite_spec(),
        ensures
            a.mul_spec(b) == b.mul_spec(a),
    ;

    proof fn mul_associates(a: Self, b: Self, c: Self)
        requires
            a.is_finite_spec(),
            b.is_finite_spec(),
            c.is_finite_spec(),
        ensures
            a.mul_spec(b).mul_spec(c) == a.mul_spec(b.mul_spec(c)),
    ;

    proof fn mul_one(a: Self)
        requires
            a.is_finite_spec(),
        ensures
            a.mul_spec(Self::one_spec()) == a,
    ;

    proof fn mul_zero(a: Self)
        requires
            a.is_finite_spec(),
        ensures
            a.mul_spec(Self::zero_spec()) == Self::zero_spec(),
    ;

    proof fn mul_distributes(a: Self, b: Self, c: Self)
        requires
            a.is_finite_spec(),
            b.is_finite_spec(),
            c.is_finite_spec(),
        ensures
            a.mul_spec(b.add_spec(c)) == a.mul_spec(b).add_spec(a.mul_spec(c)),
    ;

    /// Fusing a multiplication and an addition changes nothing.
    proof fn mul_add_fuses(a: Self, b: Self, c: Self)
        requires
            a.is_finite_spec(),
            b.is_finite_spec(),
            c.is_finite_spec(),
        ensures
            a.mul_add_spec(b, c) == a.mul_spec(b).add_spec(c),
    ;

    /// `exp(a - c) = exp(a - b) * exp(b - c)`.
    proof fn exp_chains(a: Self, b: Self, c: Self)
        requires
            a.is_finite_spec(),
            b.is_finite_spec(),
            c.is_finite_spec(),
        ensures
            a.sub_spec(c).exp_spec() == a.sub_spec(b).exp_spec().mul_spec(b.sub_spec(c).exp_spec()),
    ;

    /// `exp(a - a) = 1`.
    proof fn exp_of_nothing(a: Self)
        requires
            a.is_finite_spec(),
        ensures
            a.sub_spec(a).exp_spec() == Self::one_spec(),
    ;

    proof fn neg_infinity_is_not_finite()
        ensures
            !Self::neg_infinity_spec().is_finite_spec(),
    ;

    proof fn neg_infinity_is_least(a: Self)
        requires
            a.is_finite_spec(),
        ensures
            a.greater_than_spec(Self::neg_infinity_spec()),
            !Self::neg_infinity_spec().greater_than_spec(a),
            !Self::neg_infinity_spec().greater_than_spec(Self::neg_infinity_spec()),
    ;

    proof fn order_is_total(a: Self, b: Self)
        requires
            a.is_finite_spec(),
            b.is_finite_spec(),
        ensures
            a == b <==> !a.greater_than_spec(b) && !b.greater_than_spec(a),
            !(a.greater_than_spec(b) && b.greater_than_spec(a)),
    ;

    proof fn order_is_transitive(a: Self, b: Self, c: Self)
        requires
            a.is_finite_spec(),
            b.is_finite_spec(),
            c.is_finite_spec(),
            a.greater_than_spec(b),
            b.greater_than_spec(c),
        ensures
            a.greater_than_spec(c),
    ;

    proof fn max_is_larger(a: Self, b: Self)
        requires
            a.is_finite_spec() || a == Self::neg_infinity_spec(),
            b.is_finite_spec() || b == Self::neg_infinity_spec(),
        ensures
            a.max_spec(b) == if b.greater_than_spec(a) {
                b
            } else {
                a
            },
    ;

    proof fn equals_is_equality(a: Self, b: Self)
        requires
            a.is_finite_spec() || a == Self::neg_infinity_spec(),
            b.is_finite_spec() || b == Self::neg_infinity_spec(),
        ensures
            a.equals_spec(b) <==> a == b,
    ;
}

} // verus!
