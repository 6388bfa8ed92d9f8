//! Double-precision numbers carried as their IEEE 754 binary64 bit patterns.
//!
//! Every comparison and classification of the library is integer logic on the
//! pattern, so it can be stated and proved exactly. Arithmetic on the values is
//! left to the callers, who convert with `to_bits` and `from_bits`.

use vstd::arithmetic::power2::{lemma_pow2_adds, lemma_pow2_pos, lemma_pow2_strictly_increases, pow2};
use vstd::prelude::*;

verus! {

/// The bit that holds the sign.
pub const SIGN_BIT: u64 = 0x8000_0000_0000_0000;

/// The magnitude pattern of an infinity; larger magnitudes are NaNs.
pub const INFINITY_MAGNITUDE: u64 = 0x7ff0_0000_0000_0000;

/// Two to the power of 52: one more than the largest fraction field.
pub const FRACTION_RANGE: u64 = 0x0010_0000_0000_0000;

/// A binary64 number as its bit pattern. `==` compares patterns, so it tells
/// the two zeros apart and finds a NaN equal to itself; the numeric comparisons
/// are the methods below.
#[derive(Clone, Copy, Debug, PartialEq, Eq, Structural)]
pub struct Binary64 {
    /// The pattern, most significant bit first: sign, exponent, fraction.
    pub bits: u64,
}

/// The number with the given pattern.
#[verifier::allow_in_spec]
pub fn from_bits(bits: u64) -> Binary64
    returns
        (Binary64 { bits }),
{
    Binary64 { bits }
}

/// Positive zero.
#[verifier::allow_in_spec]
pub fn zero() -> Binary64
    returns
        from_bits(0),
{
    from_bits(0)
}

/// One.
#[verifier::allow_in_spec]
pub fn one() -> Binary64
    returns
        from_bits(0x3ff0_0000_0000_0000),
{
    from_bits(0x3ff0_0000_0000_0000)
}

/// The binary64 number nearest to pi.
#[verifier::allow_in_spec]
pub fn pi() -> Binary64
    returns
        from_bits(0x4009_21fb_5444_2d18),
{
    from_bits(0x4009_21fb_5444_2d18)
}

/// The negation of [`pi`].
#[verifier::allow_in_spec]
pub fn minus_pi() -> Binary64
    returns
        from_bits(0xc009_21fb_5444_2d18),
{
    from_bits(0xc009_21fb_5444_2d18)
}

/// A quiet NaN.
#[verifier::allow_in_spec]
pub fn not_a_number() -> Binary64
    returns
        from_bits(0x7ff8_0000_0000_0000),
{
    from_bits(0x7ff8_0000_0000_0000)
}

/// Positive infinity.
#[verifier::allow_in_spec]
pub fn infinity() -> Binary64
    returns
        from_bits(0x7ff0_0000_0000_0000),
{
    from_bits(0x7ff0_0000_0000_0000)
}

/// Negative infinity.
#[verifier::allow_in_spec]
pub fn minus_infinity() -> Binary64
    returns
        from_bits(0xfff0_0000_0000_0000),
{
    from_bits(0xfff0_0000_0000_0000)
}

impl Binary64 {
    /// Does the sign bit stand?
    pub open spec fn negative(self) -> bool {
        self.bits >= SIGN_BIT
    }

    /// The pattern without its sign bit.
    pub open spec fn magnitude(self) -> int {
        if self.negative() {
            self.bits - SIGN_BIT
        } else {
            self.bits as int
        }
    }

    /// Not a number.
    pub open spec fn nan(self) -> bool {
        self.magnitude() > INFINITY_MAGNITUDE
    }

    /// Neither a NaN nor an infinity.
    pub open spec fn finite(self) -> bool {
        self.magnitude() < INFINITY_MAGNITUDE
    }

    /// Position on the line of all numbers that are not NaN; both zeros stand
    /// at 0 and the infinities at its two ends.
    pub open spec fn rank(self) -> int {
        if self.negative() {
            -self.magnitude()
        } else {
            self.magnitude()
        }
    }

    /// Position in the total order over all patterns: negative NaNs, negative
    /// infinity, negative numbers, negative zero, positive zero, positive
    /// numbers, positive infinity, positive NaNs.
    pub open spec fn total_rank(self) -> int {
        if self.negative() {
            -self.magnitude() - 1
        } else {
            self.magnitude()
        }
    }

    /// The absolute value of a finite number, in units of two to the power of
    /// minus 1074 (the smallest positive number).
    pub open spec fn units(self) -> nat {
        let exponent = self.magnitude() / (FRACTION_RANGE as int);
        let fraction = self.magnitude() % (FRACTION_RANGE as int);
        if exponent == 0 {
            fraction as nat
        } else {
            ((FRACTION_RANGE + fraction) * pow2((exponent - 1) as nat)) as nat
        }
    }

    /// The exact value of a finite number, in the units of [`Self::units`].
    pub open spec fn value(self) -> int {
        if self.negative() {
            -(self.units() as int)
        } else {
            self.units() as int
        }
    }

    /// `self < other` for numbers: never true of a NaN.
    pub open spec fn below(self, other: Self) -> bool {
        !self.nan() && !other.nan() && self.rank() < other.rank()
    }

    /// `self <= other` for numbers: never true of a NaN.
    pub open spec fn at_most(self, other: Self) -> bool {
        !self.nan() && !other.nan() && self.rank() <= other.rank()
    }

    /// `self == other` for numbers: never true of a NaN, and true of the two
    /// zeros.
    pub open spec fn same(self, other: Self) -> bool {
        !self.nan() && !other.nan() && self.rank() == other.rank()
    }

    /// Finite and strictly greater than zero.
    pub open spec fn positive_finite(self) -> bool {
        self.finite() && self.rank() > 0
    }

    /// Finite and not below zero; negative zero counts as zero.
    pub open spec fn non_negative_finite(self) -> bool {
        self.finite() && self.rank() >= 0
    }

    /// Strictly between zero and one.
    pub open spec fn in_open_unit(self) -> bool {
        zero().below(self) && self.below(one())
    }

    /// Is the sign bit set?
    pub fn is_negative(self) -> (r: bool)
        ensures
            r == self.negative(),
    {
        self.bits >= SIGN_BIT
    }

    /// The pattern without its sign bit.
    pub fn magnitude_bits(self) -> (r: u64)
        ensures
            r == self.magnitude(),
            r < SIGN_BIT,
    {
        if self.bits >= SIGN_BIT {
            self.bits - SIGN_BIT
        } else {
            self.bits
        }
    }

    /// Is this a NaN?
    pub fn is_nan(self) -> (r: bool)
        ensures
            r == self.nan(),
    {
        self.magnitude_bits() > INFINITY_MAGNITUDE
    }

    /// Is this neither a NaN nor an infinity?
    pub fn is_finite(self) -> (r: bool)
        ensures
            r == self.finite(),
    {
        self.magnitude_bits() < INFINITY_MAGNITUDE
    }

    /// The numeric `<`.
    pub fn is_below(self, other: Self) -> (r: bool)
        ensures
            r == self.below(other),
    {
        if self.is_nan() || other.is_nan() {
            return false;
        }
        let a: u64 = self.magnitude_bits();
        let b: u64 = other.magnitude_bits();
        if self.is_negative() {
            if other.is_negative() {
                b < a
            } else {
                a > 0 || b > 0
            }
        } else {
            !other.is_negative() && a < b
        }
    }

    /// The numeric `<=`.
    pub fn is_at_most(self, other: Self) -> (r: bool)
        ensures
            r == self.at_most(other),
    {
        !self.is_nan() && !other.is_nan() && !other.is_below(self)
    }

    /// The numeric `==`.
    pub fn is_same(self, other: Self) -> (r: bool)
        ensures
            r == self.same(other),
    {
        self.is_at_most(other) && other.is_at_most(self)
    }

    /// `total_rank` order: does `self` come strictly before `other`?
    pub fn precedes(self, other: Self) -> (r: bool)
        ensures
            r == (self.total_rank() < other.total_rank()),
    {
        let a: u64 = self.magnitude_bits();
        let b: u64 = other.magnitude_bits();
        if self.is_negative() {
            !other.is_negative() || b < a
        } else {
            !other.is_negative() && a < b
        }
    }

    /// Finite and strictly greater than zero?
    pub fn is_positive_finite(self) -> (r: bool)
        ensures
            r == self.positive_finite(),
    {
        self.is_finite() && !self.is_negative() && self.bits > 0
    }

    /// Finite and not below zero?
    pub fn is_non_negative_finite(self) -> (r: bool)
        ensures
            r == self.non_negative_finite(),
    {
        self.is_finite() && (!self.is_negative() || self.magnitude_bits() == 0)
    }

    /// Strictly between zero and one?
    pub fn is_in_open_unit(self) -> (r: bool)
        ensures
            r == self.in_open_unit(),
    {
        zero().is_below(self) && self.is_below(one())
    }
}

/// The distance between neighbouring binary64 numbers at the count `n`.
pub open spec fn spacing(n: nat) -> nat
    decreases n,
{
    if n < 2 * FRACTION_RANGE {
        1
    } else {
        2 * spacing(n / 2)
    }
}

/// The count that the conversion of `n` to binary64 stands for: the nearest
/// multiple of the spacing at `n`, the even one of two that are equally near.
/// Counts below two to the power of 53 are kept exactly.
pub open spec fn nearest_count(n: nat) -> nat {
    let step = spacing(n);
    let quotient = n / step;
    let rest = n % step;
    if 2 * rest > step || (2 * rest == step && quotient % 2 == 1) {
        (quotient + 1) * step
    } else {
        quotient * step
    }
}

/// The number with the given exponent field and significand.
fn assemble(exponent: u64, significand: u64) -> (r: Binary64)
    requires
        1 <= exponent < 2046,
        FRACTION_RANGE <= significand <= 2 * FRACTION_RANGE,
    ensures
        r.finite(),
        !r.negative(),
        r.units() == significand * pow2((exponent - 1) as nat),
{
    let bits: u64 = exponent * FRACTION_RANGE + (significand - FRACTION_RANGE);
    let r = from_bits(bits);
    proof {
        let f = FRACTION_RANGE as int;
        if significand < 2 * FRACTION_RANGE {
            assert(bits as int / f == exponent && bits as int % f == significand - f);
        } else {
            assert(bits as int / f == exponent + 1 && bits as int % f == 0);
            lemma_pow2_adds(1, (exponent - 1) as nat);
            vstd::arithmetic::power2::lemma2_to64();
            assert(f * (2 * pow2((exponent - 1) as nat)) == (2 * f) * pow2((exponent - 1) as nat))
                by (nonlinear_arith);
        }
    }
    r
}

impl Binary64 {
    /// The count `n` as a binary64 number, rounded to nearest, ties to even.
    pub fn from_count(n: usize) -> (r: Self)
        ensures
            r.finite(),
            !r.negative(),
            r.value() == nearest_count(n as nat) * pow2(1074),
    {
        if n == 0 {
            proof {
                assert(spacing(0) == 1 && 0nat / 1 == 0 && 0nat % 1 == 0);
                assert(nearest_count(0) == 0 * 1nat);
                assert(0 * pow2(1074) == 0) by (nonlinear_arith);
                assert(zero().units() == 0);
            }
            return zero();
        }
        let n: u64 = n as u64;
        if n < 2 * FRACTION_RANGE {
            let mut significand: u64 = n;
            let mut exponent: u64 = 1075;
            proof {
                vstd::arithmetic::power2::lemma2_to64();
            }
            while significand < FRACTION_RANGE
                invariant
                    1 <= significand < 2 * FRACTION_RANGE,
                    1 <= n < 2 * FRACTION_RANGE,
                    1023 <= exponent <= 1075,
                    significand * pow2((exponent - 1) as nat) == n * pow2(1074),
                    significand >= pow2((1075 - exponent) as nat),
                decreases 2 * FRACTION_RANGE - significand,
            {
                proof {
                    vstd::arithmetic::power2::lemma2_to64_rest();
                    if exponent == 1023 {
                        assert(pow2(52) == 0x10000000000000) by {
                            vstd::arithmetic::power2::lemma2_to64_rest();
                        }
                    }
                    lemma_pow2_adds(1, (exponent - 2) as nat);
                    lemma_pow2_adds(1, (1075 - exponent) as nat);
                    vstd::arithmetic::power2::lemma2_to64();
                    let p = pow2((exponent - 2) as nat) as int;
                    assert((2 * significand) * p == significand * (2 * p)) by (nonlinear_arith);
                }
                significand = 2 * significand;
                exponent = exponent - 1;
            }
            proof {
                assert(spacing(n as nat) == 1);
                assert(n as nat / 1 == n && n as nat % 1 == 0);
                assert(n * 1nat == n);
                assert(nearest_count(n as nat) == n);
            }
            assemble(exponent, significand)
        } else {
            let mut quotient: u64 = n;
            let mut step: u64 = 1;
            let mut exponent: u64 = 1075;
            proof {
                vstd::arithmetic::power2::lemma2_to64();
            }
            while quotient >= 2 * FRACTION_RANGE
                invariant
                    FRACTION_RANGE <= quotient,
                    quotient == n / step,
                    1 <= step,
                    step * quotient <= n,
                    1075 <= exponent <= 1075 + step,
                    spacing(n as nat) == step * spacing(quotient as nat),
                    step == pow2((exponent - 1075) as nat),
                decreases quotient,
            {
                proof {
                    let h = quotient as int / 2;
                    assert(2 * step <= n) by (nonlinear_arith)
                        requires
                            step * quotient <= n,
                            quotient >= 2,
                            step >= 1,
                    ;
                    assert(step * 2 * h <= step * quotient) by (nonlinear_arith)
                        requires
                            2 * h <= quotient,
                            step >= 1,
                    ;
                    vstd::arithmetic::div_mod::lemma_div_denominator(n as int, step as int, 2);
                    assert(spacing(quotient as nat) == 2 * spacing(h as nat));
                    assert(step * (2 * spacing(h as nat)) == (2 * step) * spacing(h as nat))
                        by (nonlinear_arith);
                    lemma_pow2_adds(1, (exponent - 1075) as nat);
                    vstd::arithmetic::power2::lemma2_to64();
                }
                quotient = quotient / 2;
                step = 2 * step;
                exponent = exponent + 1;
            }
            let rest: u64 = n - quotient * step;
            proof {
                assert(spacing(quotient as nat) == 1);
                assert(n as int % step as int == rest) by {
                    vstd::arithmetic::div_mod::lemma_fundamental_div_mod(n as int, step as int);
                    assert(step * quotient == quotient * step) by (nonlinear_arith);
                }
            }
            let up: bool = rest > step - rest || (rest == step - rest && quotient % 2 == 1);
            let significand: u64 = if up {
                quotient + 1
            } else {
                quotient
            };
            assert(step < 4096) by (nonlinear_arith)
                requires
                    step * quotient <= n,
                    quotient >= 0x10_0000_0000_0000,
                    n <= 0xffff_ffff_ffff_ffff,
            ;
            proof {
                vstd::arithmetic::power2::lemma2_to64();
                if exponent - 1075 > 12 {
                    lemma_pow2_strictly_increases(12, (exponent - 1075) as nat);
                }
            }
            let r = assemble(exponent, significand);
            proof {
                lemma_pow2_adds((exponent - 1075) as nat, 1074);
                let p = pow2(1074) as int;
                assert(spacing(n as nat) == step) by (nonlinear_arith)
                    requires
                        spacing(n as nat) == step * spacing(quotient as nat),
                        spacing(quotient as nat) == 1,
                ;
                assert(nearest_count(n as nat) == significand * step);
                assert((significand * step) * p == significand * (step * p)) by (nonlinear_arith);
            }
            r
        }
    }
}

/// The units of a magnitude grow with it.
proof fn lemma_units_increase(a: Binary64, b: Binary64)
    requires
        a.magnitude() < b.magnitude(),
    ensures
        a.units() < b.units(),
{
    let f = FRACTION_RANGE as int;
    let (ea, fa) = (a.magnitude() / f, a.magnitude() % f);
    let (eb, fb) = (b.magnitude() / f, b.magnitude() % f);
    assert(a.magnitude() == ea * f + fa && b.magnitude() == eb * f + fb);
    assert(ea <= eb);
    if ea == eb {
        if ea > 0 {
            let p = pow2((ea - 1) as nat) as int;
            lemma_pow2_pos((ea - 1) as nat);
            assert((f + fa) * p < (f + fb) * p) by (nonlinear_arith)
                requires
                    fa < fb,
                    p > 0,
            ;
        }
    } else {
        let p = pow2((eb - 1) as nat) as int;
        lemma_pow2_pos((eb - 1) as nat);
        assert((f + fb) * p >= f * p) by (nonlinear_arith)
            requires
                fb >= 0,
                p > 0,
        ;
        if ea == 0 {
            assert(f * p >= f) by (nonlinear_arith)
                requires
                    p >= 1,
                    f > 0,
            ;
        } else {
            let q = pow2((ea - 1) as nat) as int;
            lemma_pow2_pos((ea - 1) as nat);
            lemma_pow2_adds(1, (ea - 1) as nat);
            vstd::arithmetic::power2::lemma2_to64();
            assert(pow2(ea as nat) == 2 * q);
            if ea < eb - 1 {
                lemma_pow2_strictly_increases(ea as nat, (eb - 1) as nat);
            }
            assert(2 * q <= p);
            assert((f + fa) * q < f * p) by (nonlinear_arith)
                requires
                    0 <= fa < f,
                    2 * q <= p,
                    q > 0,
            ;
        }
    }
}

/// On finite numbers the order of the ranks is the order of the exact values,
/// so `below`, `at_most` and `same` compare values.
pub proof fn rank_orders_values(a: Binary64, b: Binary64)
    requires
        a.finite(),
        b.finite(),
    ensures
        a.rank() < b.rank() <==> a.value() < b.value(),
        a.rank() == b.rank() <==> a.value() == b.value(),
        a.below(b) <==> a.value() < b.value(),
        a.same(b) <==> a.value() == b.value(),
{
    let origin = zero();
    assert(origin.units() == 0);
    if a.magnitude() < b.magnitude() {
        lemma_units_increase(a, b);
    } else if b.magnitude() < a.magnitude() {
        lemma_units_increase(b, a);
    }
    if a.magnitude() > 0 {
        lemma_units_increase(origin, a);
    }
    if b.magnitude() > 0 {
        lemma_units_increase(origin, b);
    }
}

/// Every finite number lies strictly between the two infinities.
pub proof fn infinities_bound_the_finite(a: Binary64)
    requires
        a.finite(),
    ensures
        minus_infinity().below(a),
        a.below(infinity()),
{
}

/// The total order refines the numeric one: what is numerically below comes
/// first, and two patterns share a place only when they are one pattern.
pub proof fn total_order_refines_numeric_order(a: Binary64, b: Binary64)
    ensures
        a.below(b) ==> a.total_rank() < b.total_rank(),
        a.total_rank() == b.total_rank() <==> a == b,
{
}

/// One is two to the power of 1074 units, zero is none, and pi lies between three and
/// four.
pub proof fn constants_have_their_values()
    ensures
        zero().value() == 0,
        one().value() == pow2(1074),
        3 * pow2(1074) < pi().value() < 4 * pow2(1074),
        minus_pi().value() == -pi().value(),
        zero().finite() && one().finite() && pi().finite() && minus_pi().finite(),
        not_a_number().nan(),
        !infinity().nan() && !infinity().finite() && !infinity().negative(),
        !minus_infinity().nan() && !minus_infinity().finite() && minus_infinity().negative(),
{
    let f = FRACTION_RANGE as int;
    vstd::arithmetic::power2::lemma2_to64();
    vstd::arithmetic::power2::lemma2_to64_rest();
    lemma_pow2_adds(52, 1022);
    assert(pow2(52) == f);
    assert(one().magnitude() / f == 1023 && one().magnitude() % f == 0);
    assert(one().units() == f * pow2(1022));
    assert(pi().magnitude() / f == 1024 && pi().magnitude() % f == 0x921fb54442d18);
    lemma_pow2_adds(1, 1022);
    lemma_pow2_pos(1022);
    let p = pow2(1022) as int;
    assert(pow2(1023) == 2 * p);
    assert(pi().units() == (f + 0x921fb54442d18) * (2 * p));
    assert(3 * (f * p) < (f + 0x921fb54442d18) * (2 * p) < 4 * (f * p)) by (nonlinear_arith)
        requires
            f == 0x10000000000000,
            p > 0,
    ;
    assert(minus_pi().magnitude() == pi().magnitude());
}

/// The comparisons compare the values of finite numbers, find nothing of a NaN, and put
/// every finite number strictly between the infinities.
pub proof fn comparisons_compare_values(a: Binary64, b: Binary64, lt: bool, le: bool, eq: bool)
    requires
        call_ensures(Binary64::is_below, (a, b), lt),
        call_ensures(Binary64::is_at_most, (a, b), le),
        call_ensures(Binary64::is_same, (a, b), eq),
    ensures
        a.finite() && b.finite() ==> {
            &&& lt <==> a.value() < b.value()
            &&& le <==> a.value() <= b.value()
            &&& eq <==> a.value() == b.value()
        },
        a.nan() || b.nan() ==> !lt && !le && !eq,
        !a.nan() && !b.nan() ==> (le <==> lt || eq) && !(lt && eq),
        a.finite() && b == infinity() ==> lt,
        a == minus_infinity() && b.finite() ==> lt,
        a == minus_infinity() && b == infinity() ==> lt,
        lt && a.finite() && !b.finite() ==> b == infinity(),
{
    if a.finite() && b.finite() {
        rank_orders_values(a, b);
    }
}

/// The classes of numbers go by their values: positive ones lie above zero, those that
/// are not negative do not lie below it, and the open unit interval lies strictly between
/// zero and one.
pub proof fn classes_go_by_the_value(
    a: Binary64,
    positive: bool,
    non_negative: bool,
    in_unit: bool,
    finite: bool,
    nan: bool,
)
    requires
        call_ensures(Binary64::is_positive_finite, (a,), positive),
        call_ensures(Binary64::is_non_negative_finite, (a,), non_negative),
        call_ensures(Binary64::is_in_open_unit, (a,), in_unit),
        call_ensures(Binary64::is_finite, (a,), finite),
        call_ensures(Binary64::is_nan, (a,), nan),
    ensures
        positive <==> a.finite() && a.value() > 0,
        non_negative <==> a.finite() && a.value() >= 0,
        in_unit <==> a.finite() && 0 < a.value() < pow2(1074),
        finite <==> a.finite(),
        nan <==> a.nan(),
        !(finite && nan),
        !finite && !nan <==> a == infinity() || a == minus_infinity(),
{
    constants_have_their_values();
    if a.finite() {
        rank_orders_values(a, zero());
        rank_orders_values(zero(), a);
        rank_orders_values(a, one());
    }
}

/// A count below two to the power of 53 becomes exactly the number that it is.
pub proof fn counts_become_numbers(n: usize, r: Binary64)
    requires
        call_ensures(Binary64::from_count, (n,), r),
        n < 0x20_0000_0000_0000,
    ensures
        r.finite(),
        r.value() == n * pow2(1074),
{
    assert(spacing(n as nat) == 1);
    assert(n as nat / 1 == n && n as nat % 1 == 0);
    assert(n * 1nat == n);
    assert(nearest_count(n as nat) == n);
}

/// The total order puts finite numbers by their values and negative zero before positive
/// zero; it puts one of two different patterns before the other, and none before itself.
pub proof fn total_order_refines_the_values(a: Binary64, b: Binary64, ab: bool, ba: bool)
    requires
        call_ensures(Binary64::precedes, (a, b), ab),
        call_ensures(Binary64::precedes, (b, a), ba),
    ensures
        !(ab && ba),
        a.bits != b.bits ==> ab || ba,
        a == b ==> !ab,
        a.finite() && b.finite() && a.value() < b.value() ==> ab,
        a.finite() && b.finite() && ab ==> a.value() <= b.value(),
        a.finite() && b.finite() && a.value() == b.value() && a.negative() && !b.negative() ==> ab,
{
    if a.finite() && b.finite() {
        rank_orders_values(a, b);
    }
}

} // verus!
