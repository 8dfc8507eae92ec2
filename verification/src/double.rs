//! Double-precision numbers, held as their bit patterns.
//!
//! A `Double` is the IEEE 754 binary64 number with the given bits. What the
//! rules of this library ask of such a number is stated over integers: every
//! number that is not a NaN is an integer multiple of the smallest positive
//! one, and `units` is that integer.
use vstd::prelude::*;

verus! {

/// A binary64 number, by its bits. `==` compares the bits.
#[derive(Clone, Copy, Debug, PartialEq, Eq, Structural)]
pub struct Double {
    pub bits: u64,
}

/// The bits of 0.
pub const ZERO: u64 = 0;

/// The bits of 0.01.
pub const PRICE_MIN: u64 = 0x3f84_7ae1_47ae_147b;

/// The bits of 0.99.
pub const PRICE_MAX: u64 = 0x3fef_ae14_7ae1_47ae;

/// The bits of 0.04.
pub const D004: u64 = 0x3fa4_7ae1_47ae_147b;

/// The bits of 0.05.
pub const D005: u64 = 0x3fa9_9999_9999_999a;

/// The bits of 0.06.
pub const D006: u64 = 0x3fae_b851_eb85_1eb8;

/// The bits of 0.07.
pub const D007: u64 = 0x3fb1_eb85_1eb8_51ec;

/// The bits of 0.10.
pub const D010: u64 = 0x3fb9_9999_9999_999a;

/// The bits of 0.15.
pub const D015: u64 = 0x3fc3_3333_3333_3333;

/// The bits of 0.20.
pub const D020: u64 = 0x3fc9_9999_9999_999a;

/// The bits of 0.25.
pub const D025: u64 = 0x3fd0_0000_0000_0000;

/// The bits of 0.30.
pub const D030: u64 = 0x3fd3_3333_3333_3333;

/// The bits of 0.35.
pub const D035: u64 = 0x3fd6_6666_6666_6666;

/// The bits of 0.40.
pub const D040: u64 = 0x3fd9_9999_9999_999a;

/// The bits of 0.45.
pub const D045: u64 = 0x3fdc_cccc_cccc_cccd;

/// The bits of 0.50.
pub const D050: u64 = 0x3fe0_0000_0000_0000;

/// The bits of 0.55.
pub const D055: u64 = 0x3fe1_9999_9999_999a;

/// The bits of 0.60.
pub const D060: u64 = 0x3fe3_3333_3333_3333;

/// The bits of 0.65.
pub const D065: u64 = 0x3fe4_cccc_cccc_cccd;

/// The bits of 1.
pub const ONE: u64 = 0x3ff0_0000_0000_0000;

impl Double {
    /// Whether the sign bit is set.
    pub open spec fn negative(self) -> bool {
        self.bits >= 0x8000_0000_0000_0000
    }

    /// The biased exponent.
    pub open spec fn exponent(self) -> nat {
        ((self.bits / 0x10_0000_0000_0000) % 2048) as nat
    }

    /// The stored part of the significand.
    pub open spec fn fraction(self) -> nat {
        (self.bits % 0x10_0000_0000_0000) as nat
    }

    /// The significand as an integer.
    pub open spec fn significand(self) -> nat {
        if self.exponent() == 0 {
            self.fraction()
        } else {
            self.fraction() + 0x10_0000_0000_0000
        }
    }

    /// The power of two by which the significand counts units.
    pub open spec fn scale(self) -> nat {
        if self.exponent() == 0 {
            0
        } else {
            (self.exponent() - 1) as nat
        }
    }

    /// The absolute value, in units of 2 to the power of -1074. An infinity
    /// counts as more than every finite number.
    pub open spec fn size(self) -> nat {
        self.significand() * vstd::arithmetic::power2::pow2(self.scale())
    }

    /// The value, in units of 2 to the power of -1074.
    pub open spec fn units(self) -> int {
        if self.negative() {
            -(self.size() as int)
        } else {
            self.size() as int
        }
    }

    /// Whether the bits denote no number.
    pub open spec fn is_nan(self) -> bool {
        self.exponent() == 2047 && self.fraction() > 0
    }

    /// Whether the bits denote a number.
    pub open spec fn is_finite(self) -> bool {
        self.exponent() < 2047
    }

    /// `self < other`.
    pub open spec fn lt(self, other: Double) -> bool {
        !self.is_nan() && !other.is_nan() && self.units() < other.units()
    }

    /// `self >= other`.
    pub open spec fn ge(self, other: Double) -> bool {
        !self.is_nan() && !other.is_nan() && self.units() >= other.units()
    }

    /// The number with the given bits.
    pub fn from_bits(bits: u64) -> (r: Double)
        ensures
            r == (Double { bits }),
    {
        Double { bits }
    }

    fn magnitude(self) -> (r: u64)
        ensures
            r == self.bits % 0x8000_0000_0000_0000,
    {
        self.bits % 0x8000_0000_0000_0000
    }

    pub(crate) fn sign(self) -> (r: bool)
        ensures
            r == self.negative(),
    {
        self.bits >= 0x8000_0000_0000_0000
    }

    pub(crate) fn nan(self) -> (r: bool)
        ensures
            r == self.is_nan(),
    {
        (self.bits / 0x10_0000_0000_0000) % 2048 == 2047 && self.bits % 0x10_0000_0000_0000 > 0
    }

    /// Whether `self < other`.
    pub fn less(self, other: Double) -> (r: bool)
        ensures
            r == self.lt(other),
    {
        if self.nan() || other.nan() {
            return false;
        }
        let a: u64 = self.magnitude();
        let b: u64 = other.magnitude();
        proof {
            lemma_order(self, other);
            lemma_order(other, self);
        }
        if self.sign() {
            if other.sign() {
                b < a
            } else {
                a > 0 || b > 0
            }
        } else if other.sign() {
            false
        } else {
            a < b
        }
    }

    /// Whether `self >= other`.
    pub fn at_least(self, other: Double) -> (r: bool)
        ensures
            r == self.ge(other),
    {
        !self.nan() && !other.nan() && !self.less(other)
    }

    /// The number moved into the range from 0 to 1.
    pub open spec fn unit_clamped(self) -> Double {
        if self.lt(Double { bits: ZERO }) {
            Double { bits: ZERO }
        } else if (Double { bits: ONE }).lt(self) {
            Double { bits: ONE }
        } else {
            self
        }
    }

    /// Moves the number into the range from 0 to 1.
    pub fn clamp_unit(self) -> (r: Double)
        ensures
            r == self.unit_clamped(),
    {
        let zero = Double { bits: ZERO };
        let one = Double { bits: ONE };
        if self.less(zero) {
            zero
        } else if one.less(self) {
            one
        } else {
            self
        }
    }
}

/// A number moved into the range from 0 to 1 is in it, unless it is a NaN.
pub proof fn unit_clamped_in_unit(d: Double)
    ensures
        d.unit_clamped().is_nan() == d.is_nan(),
        !d.is_nan() ==> d.unit_clamped().ge(Double { bits: ZERO }) && (Double { bits: ONE }).ge(
            d.unit_clamped(),
        ),
{
    let zero = Double { bits: ZERO };
    let one = Double { bits: ONE };
    assert(!zero.is_nan() && !one.is_nan() && !one.negative());
    assert(zero.size() == 0) by (nonlinear_arith)
        requires
            zero.significand() == 0,
    ;
    assert(one.units() >= zero.units());
}

/// 2 to the power of `k`.
pub open spec fn two(k: nat) -> nat {
    vstd::arithmetic::power2::pow2(k)
}

pub(crate) proof fn lemma_fields(d: Double)
    ensures
        d.bits % 0x8000_0000_0000_0000 == d.exponent() * 0x10_0000_0000_0000 + d.fraction(),
        d.exponent() < 2048,
        d.fraction() < 0x10_0000_0000_0000,
        d.exponent() > 0 ==> d.significand() >= 0x10_0000_0000_0000,
        d.significand() < 0x20_0000_0000_0000,
{
    let bits = d.bits;
    assert(bits % 0x8000_0000_0000_0000 == ((bits / 0x10_0000_0000_0000) % 2048)
        * 0x10_0000_0000_0000 + bits % 0x10_0000_0000_0000) by (nonlinear_arith);
}

/// The size of a number grows with the bits below the sign.
pub(crate) proof fn lemma_order(a: Double, b: Double)
    ensures
        a.bits % 0x8000_0000_0000_0000 < b.bits % 0x8000_0000_0000_0000 ==> a.size() < b.size(),
        a.bits % 0x8000_0000_0000_0000 == b.bits % 0x8000_0000_0000_0000 ==> a.size() == b.size(),
        a.bits % 0x8000_0000_0000_0000 > 0 <==> a.size() > 0,
{
    lemma_fields(a);
    lemma_fields(b);
    let (sa, sb) = (a.significand() as int, b.significand() as int);
    let (pa, pb) = (two(a.scale()) as int, two(b.scale()) as int);
    vstd::arithmetic::power2::lemma_pow2_pos(a.scale());
    vstd::arithmetic::power2::lemma_pow2_pos(b.scale());
    assert(sa > 0 ==> sa * pa > 0) by (nonlinear_arith)
        requires
            pa > 0,
    ;
    assert(sa == 0 ==> sa * pa == 0) by (nonlinear_arith);
    if a.bits % 0x8000_0000_0000_0000 < b.bits % 0x8000_0000_0000_0000 {
        if a.exponent() == b.exponent() {
            assert(sa * pa < sb * pb) by (nonlinear_arith)
                requires
                    sa < sb,
                    pa == pb,
                    pa > 0,
            ;
        } else {
            assert(a.exponent() < b.exponent());
            if a.exponent() == 0 {
                vstd::arithmetic::power2::lemma2_to64();
                assert(sa * pa < sb * pb) by (nonlinear_arith)
                    requires
                        pa == 1,
                        sa < 0x10_0000_0000_0000,
                        sb >= 0x10_0000_0000_0000,
                        pb >= 1,
                ;
            } else {
                vstd::arithmetic::power2::lemma_pow2_unfold(a.scale() + 1);
                if a.scale() + 1 < b.scale() {
                    vstd::arithmetic::power2::lemma_pow2_strictly_increases(
                        a.scale() + 1,
                        b.scale(),
                    );
                }
                assert(sa * pa < sb * pb) by (nonlinear_arith)
                    requires
                        2 * pa <= pb,
                        0 <= sa < 0x20_0000_0000_0000,
                        sb >= 0x10_0000_0000_0000,
                        pa > 0,
                ;
            }
        }
    }
}

/// The power of two as a machine number.
pub(crate) fn power_of_two(k: u32) -> (r: u128)
    requires
        k < 127,
    ensures
        r == two(k as nat),
        r > 0,
{
    let mut r: u128 = 1;
    let mut i: u32 = 0;
    proof {
        vstd::arithmetic::power2::lemma2_to64();
    }
    while i < k
        invariant
            i <= k < 127,
            r == two(i as nat),
            r > 0,
        decreases k - i,
    {
        proof {
            vstd::arithmetic::power2::lemma_pow2_unfold((i + 1) as nat);
            lemma_two_below(i as nat, 126);
            lemma_two_126();
        }
        r = r * 2;
        i = i + 1;
    }
    r
}

pub(crate) proof fn lemma_two_below(a: nat, b: nat)
    requires
        a <= b,
    ensures
        0 < two(a) <= two(b),
{
    vstd::arithmetic::power2::lemma_pow2_pos(a);
    if a < b {
        vstd::arithmetic::power2::lemma_pow2_strictly_increases(a, b);
    }
}

pub(crate) proof fn lemma_two_126()
    ensures
        two(126) == 0x4000_0000_0000_0000_0000_0000_0000_0000,
{
    vstd::arithmetic::power2::lemma2_to64();
    vstd::arithmetic::power2::lemma2_to64_rest();
    vstd::arithmetic::power2::lemma_pow2_adds(63, 63);
}

/// The finite double of a sign and a size, where there is one.
pub open spec fn of_size(negative: bool, size: nat) -> Double {
    choose|d: Double| #[trigger] d.is_finite() && d.negative() == negative && d.size() == size
}

/// A finite double is the only one of its sign and size.
pub proof fn size_and_sign_fix_a_double(d: Double)
    requires
        d.is_finite(),
    ensures
        d == of_size(d.negative(), d.size()),
{
    let other = of_size(d.negative(), d.size());
    assert(d.is_finite());
    lemma_order(d, other);
    lemma_order(other, d);
    assert(d.bits % 0x8000_0000_0000_0000 == other.bits % 0x8000_0000_0000_0000);
    assert(d.bits == other.bits);
}

/// The double nearest to an integer, the even one of two nearest.
pub open spec fn nearest(n: int) -> Double {
    of_size(
        n < 0,
        rounded(
            if n < 0 {
                (-n) as nat
            } else {
                n as nat
            },
        ) * two(1074),
    )
}

/// Whether the whole number `n` exceeds the double `d`.
pub open spec fn exceeds(n: nat, d: Double) -> bool {
    !d.is_nan() && d.units() < n * two(1074)
}

/// The number with its fractional part cut off, moved into the range of `u64`.
/// A NaN counts as zero.
pub open spec fn whole(d: Double) -> nat {
    if d.is_nan() || d.negative() {
        0
    } else if d.size() / two(1074) > u64::MAX {
        u64::MAX as nat
    } else {
        d.size() / two(1074)
    }
}

pub(crate) proof fn lemma_scaled_quotient(n: nat, low: nat, high: nat)
    requires
        low <= high,
    ensures
        (n * two(low)) / two(high) == n / two((high - low) as nat),
{
    let k = (high - low) as nat;
    vstd::arithmetic::power2::lemma_pow2_adds(low, k);
    vstd::arithmetic::power2::lemma_pow2_pos(low);
    vstd::arithmetic::power2::lemma_pow2_pos(k);
    vstd::arithmetic::div_mod::lemma_div_denominator(
        (n * two(low)) as int,
        two(low) as int,
        two(k) as int,
    );
    vstd::arithmetic::div_mod::lemma_div_multiples_vanish(n as int, two(low) as int);
    assert(n * two(low) == two(low) * n) by (nonlinear_arith);
}

pub(crate) proof fn lemma_scaled_up(n: nat, low: nat, high: nat)
    requires
        low <= high,
    ensures
        (n * two(high)) / two(low) == n * two((high - low) as nat),
        n * two(high) == (n * two((high - low) as nat)) * two(low),
{
    let k = (high - low) as nat;
    vstd::arithmetic::power2::lemma_pow2_adds(low, k);
    vstd::arithmetic::power2::lemma_pow2_pos(low);
    let (pl, pk) = (two(low) as int, two(k) as int);
    assert(n * (pl * pk) == pl * (n * pk)) by (nonlinear_arith);
    assert(n * (pl * pk) == (n * pk) * pl) by (nonlinear_arith);
    vstd::arithmetic::div_mod::lemma_div_multiples_vanish(n * pk, pl);
}

pub(crate) fn significand_of(d: Double) -> (r: u64)
    ensures
        r == d.significand(),
        r < 0x20_0000_0000_0000,
        d.exponent() > 0 ==> r >= 0x10_0000_0000_0000,
{
    proof {
        lemma_fields(d);
    }
    let fraction: u64 = d.bits % 0x10_0000_0000_0000;
    if (d.bits / 0x10_0000_0000_0000) % 2048 == 0 {
        fraction
    } else {
        fraction + 0x10_0000_0000_0000
    }
}

pub(crate) fn scale_of(d: Double) -> (r: u32)
    ensures
        r == d.scale(),
        r <= 2046,
{
    let exponent: u64 = (d.bits / 0x10_0000_0000_0000) % 2048;
    if exponent == 0 {
        0
    } else {
        (exponent - 1) as u32
    }
}

/// Whether the whole number `n` exceeds the double `d`.
pub fn whole_exceeds(n: u32, d: Double) -> (r: bool)
    ensures
        r == exceeds(n as nat, d),
{
    if d.nan() {
        return false;
    }
    proof {
        lemma_order(d, d);
        vstd::arithmetic::power2::lemma_pow2_pos(1074);
        assert(n > 0 ==> n * two(1074) > 0) by (nonlinear_arith)
            requires
                two(1074) > 0,
        ;
    }
    if d.sign() {
        return n > 0 || d.magnitude() > 0;
    }
    let sig: u64 = significand_of(d);
    let s: u32 = scale_of(d);
    if s >= 1074 {
        proof {
            lemma_scaled_up(d.significand(), 1074, d.scale());
            lemma_two_below(0, (d.scale() - 1074) as nat);
            vstd::arithmetic::power2::lemma2_to64();
            let (a, b, p) = (
                d.significand() as int,
                two((d.scale() - 1074) as nat) as int,
                two(1074) as int,
            );
            assert((a * b) * p >= n * p) by (nonlinear_arith)
                requires
                    a >= 0x10_0000_0000_0000,
                    b >= 1,
                    p > 0,
                    n <= 0xffff_ffff,
            ;
        }
        return false;
    }
    let k: u32 = 1074 - s;
    proof {
        lemma_scaled_up(n as nat, d.scale(), 1074);
        vstd::arithmetic::power2::lemma_pow2_pos(d.scale());
        let (a, b, p) = (
            d.significand() as int,
            (n * two(k as nat)) as int,
            two(d.scale()) as int,
        );
        assert(a * p < b * p <==> a < b) by (nonlinear_arith)
            requires
                p > 0,
        ;
    }
    if k >= 54 {
        proof {
            lemma_two_below(54, k as nat);
            vstd::arithmetic::power2::lemma2_to64_rest();
            assert(n > 0 ==> n * two(k as nat) >= two(54)) by (nonlinear_arith)
                requires
                    two(k as nat) >= two(54),
            ;
        }
        n > 0
    } else {
        let p: u128 = power_of_two(k);
        proof {
            lemma_two_below(k as nat, 54);
            vstd::arithmetic::power2::lemma2_to64_rest();
            assert(n * p <= 0xffff_ffff * 0x40_0000_0000_0000) by (nonlinear_arith)
                requires
                    n <= 0xffff_ffff,
                    p <= 0x40_0000_0000_0000,
            ;
        }
        (sig as u128) < (n as u128) * p
    }
}

/// Cuts off the fractional part.
pub fn whole_of(d: Double) -> (r: u64)
    ensures
        r == whole(d),
{
    if d.nan() || d.sign() {
        return 0;
    }
    let sig: u64 = significand_of(d);
    let s: u32 = scale_of(d);
    if s >= 1074 {
        let k: u32 = s - 1074;
        proof {
            lemma_scaled_up(d.significand(), 1074, d.scale());
            vstd::arithmetic::power2::lemma2_to64();
        }
        if k >= 12 {
            proof {
                lemma_two_below(12, k as nat);
                assert(sig * two(k as nat) > u64::MAX) by (nonlinear_arith)
                    requires
                        sig >= 0x10_0000_0000_0000,
                        two(k as nat) >= 4096,
                ;
            }
            u64::MAX
        } else {
            let p: u128 = power_of_two(k);
            proof {
                lemma_two_below(k as nat, 11);
                assert(sig * p <= u64::MAX) by (nonlinear_arith)
                    requires
                        sig < 0x20_0000_0000_0000,
                        p <= 2048,
                ;
            }
            ((sig as u128) * p) as u64
        }
    } else {
        let k: u32 = 1074 - s;
        proof {
            lemma_scaled_quotient(d.significand(), d.scale(), 1074);
            vstd::arithmetic::power2::lemma2_to64_rest();
        }
        if k >= 53 {
            proof {
                lemma_two_below(53, k as nat);
                vstd::arithmetic::div_mod::lemma_basic_div(sig as int, two(k as nat) as int);
            }
            0
        } else {
            let p: u128 = power_of_two(k);
            proof {
                lemma_two_below(0, k as nat);
                vstd::arithmetic::div_mod::lemma_div_nonincreasing(sig as int, p as int);
            }
            ((sig as u128) / p) as u64
        }
    }
}

/// The number of binary digits of `n`.
pub open spec fn bit_length(n: nat) -> nat
    decreases n,
{
    if n == 0 {
        0
    } else {
        1 + bit_length(n / 2)
    }
}

/// `n` divided by 2 to the power of `k`, rounded to the nearest integer, and to
/// the even one of two nearest.
pub open spec fn nearest_quotient(n: nat, k: nat) -> nat {
    let q = n / two(k);
    let r = n % two(k);
    if 2 * r > two(k) || (2 * r == two(k) && q % 2 == 1) {
        q + 1
    } else {
        q
    }
}

/// `n` rounded to a significand of 53 binary digits.
pub open spec fn rounded(n: nat) -> nat {
    if bit_length(n) <= 53 {
        n
    } else {
        let k = (bit_length(n) - 53) as nat;
        nearest_quotient(n, k) * two(k)
    }
}

/// The whole part of the product of two doubles, the product rounded as a
/// double, moved into the range of `u64`. An amount that is a NaN or negative
/// counts as zero, and the factor counts by its size.
pub open spec fn share(amount: Double, factor: Double) -> nat {
    if amount.is_nan() || amount.negative() {
        0
    } else {
        let product = rounded(amount.significand() * factor.significand()) * two(
            amount.scale() + factor.scale(),
        );
        let floor = product / two(2148);
        if floor > u64::MAX {
            u64::MAX as nat
        } else {
            floor
        }
    }
}

proof fn lemma_rounded_at_most_double(n: nat)
    ensures
        rounded(n) <= 2 * n,
{
    lemma_bit_length(n);
    if bit_length(n) > 53 {
        let k = (bit_length(n) - 53) as nat;
        let p = two(k);
        let q = n / p;
        vstd::arithmetic::power2::lemma_pow2_pos(k);
        lemma_two_below(k, (bit_length(n) - 1) as nat);
        vstd::arithmetic::div_mod::lemma_fundamental_div_mod(n as int, p as int);
        assert(p * q <= n);
        assert(nearest_quotient(n, k) <= q + 1);
        assert(nearest_quotient(n, k) * p <= 2 * n) by (nonlinear_arith)
            requires
                nearest_quotient(n, k) <= q + 1,
                p * q <= n,
                p <= n,
        ;
    }
}

/// A share by a factor of at most one half does not exceed the amount.
pub proof fn share_is_a_part(amount: Double, factor: Double)
    requires
        2 * factor.size() <= two(1074),
    ensures
        share(amount, factor) > 0 ==> !exceeds(share(amount, factor), amount),
{
    if share(amount, factor) > 0 {
        let (a, f) = (amount.significand(), factor.significand());
        let (p, q) = (two(amount.scale()), two(factor.scale()));
        let one = two(1074);
        let r = rounded(a * f);
        let product = r * two(amount.scale() + factor.scale());
        vstd::arithmetic::power2::lemma_pow2_adds(amount.scale(), factor.scale());
        vstd::arithmetic::power2::lemma_pow2_adds(1074, 1074);
        vstd::arithmetic::power2::lemma_pow2_pos(1074);
        lemma_rounded_at_most_double(a * f);
        assert(r * (p * q) <= (2 * (a * f)) * (p * q)) by (nonlinear_arith)
            requires
                r <= 2 * (a * f),
        ;
        assert((2 * (a * f)) * (p * q) == (a * p) * (2 * (f * q))) by (nonlinear_arith);
        assert((a * p) * (2 * (f * q)) <= (a * p) * one) by (nonlinear_arith)
            requires
                2 * (f * q) <= one,
        ;
        assert(product <= amount.size() * one);
        let floor = product / (one * one);
        assert(one * one > 0) by (nonlinear_arith)
            requires
                one > 0,
        ;
        vstd::arithmetic::div_mod::lemma_fundamental_div_mod(
            product as int,
            (one * one) as int,
        );
        assert((one * one) * floor <= product);
        let n = share(amount, factor);
        assert(n * one <= amount.size()) by (nonlinear_arith)
            requires
                n <= floor,
                (one * one) * floor <= product,
                product <= amount.size() * one,
                one > 0,
        ;
    }
}

/// The fractions up to 0.30 are at most one half.
pub(crate) proof fn lemma_small_fractions(d: Double)
    requires
        d.bits <= D030,
    ensures
        2 * d.size() <= two(1074),
{
    let half = Double { bits: D050 };
    lemma_order(d, half);
    vstd::arithmetic::power2::lemma2_to64_rest();
    vstd::arithmetic::power2::lemma_pow2_adds(52, 1021);
    vstd::arithmetic::power2::lemma_pow2_adds(1073, 1);
    vstd::arithmetic::power2::lemma2_to64();
    assert(half.significand() == 0x10_0000_0000_0000);
    assert(half.scale() == 1021);
    assert(half.size() == two(1073));
}

pub(crate) proof fn lemma_bit_length(n: nat)
    ensures
        n < two(bit_length(n)),
        n > 0 ==> bit_length(n) > 0 && two((bit_length(n) - 1) as nat) <= n,
    decreases n,
{
    vstd::arithmetic::power2::lemma2_to64();
    if n > 0 {
        lemma_bit_length(n / 2);
        vstd::arithmetic::power2::lemma_pow2_unfold(bit_length(n));
        if n / 2 > 0 {
            vstd::arithmetic::power2::lemma_pow2_unfold((bit_length(n) - 1) as nat);
        }
    }
}

pub(crate) fn bit_length_of(n: u128) -> (r: u32)
    requires
        n < 0x400_0000_0000_0000_0000_0000_0000,
    ensures
        r == bit_length(n as nat),
        r <= 106,
{
    proof {
        lemma_bit_length(n as nat);
        vstd::arithmetic::power2::lemma2_to64_rest();
        vstd::arithmetic::power2::lemma_pow2_adds(53, 53);
        if bit_length(n as nat) > 106 {
            lemma_two_below(106, (bit_length(n as nat) - 1) as nat);
        }
    }
    let mut rest: u128 = n;
    let mut count: u32 = 0;
    while rest > 0
        invariant
            bit_length(n as nat) == count + bit_length(rest as nat),
            bit_length(n as nat) <= 106,
        decreases rest,
    {
        rest = rest / 2;
        count = count + 1;
    }
    count
}

pub(crate) fn round(n: u128) -> (r: u128)
    requires
        n < 0x400_0000_0000_0000_0000_0000_0000,
    ensures
        r == rounded(n as nat),
        r <= 0x400_0000_0000_0000_0000_0000_0000,
        n <= 2 * r,
        r <= 2 * n,
{
    let length: u32 = bit_length_of(n);
    if length <= 53 {
        return n;
    }
    let k: u32 = length - 53;
    let p: u128 = power_of_two(k);
    let q: u128 = n / p;
    let rest: u128 = n % p;
    proof {
        lemma_bit_length(n as nat);
        vstd::arithmetic::power2::lemma2_to64_rest();
        vstd::arithmetic::power2::lemma_pow2_adds(53, k as nat);
        vstd::arithmetic::power2::lemma_pow2_adds(52, k as nat);
        lemma_two_below(k as nat, 53);
        vstd::arithmetic::div_mod::lemma_fundamental_div_mod(n as int, p as int);
        assert(q < 0x20_0000_0000_0000) by (nonlinear_arith)
            requires
                n == p * q + rest,
                n < 0x20_0000_0000_0000 * p,
                0 <= rest,
                p > 0,
        ;
        assert(q >= 1) by (nonlinear_arith)
            requires
                n == p * q + rest,
                n >= 0x10_0000_0000_0000 * p,
                0 <= rest < p,
                p > 0,
        ;
    }
    let up: bool = 2 * rest > p || (2 * rest == p && q % 2 == 1);
    let nearest: u128 = if up {
        q + 1
    } else {
        q
    };
    proof {
        assert(nearest * p <= 0x400_0000_0000_0000_0000_0000_0000) by (nonlinear_arith)
            requires
                nearest <= 0x20_0000_0000_0000,
                p <= 0x20_0000_0000_0000,
        ;
        assert(2 * (nearest * p) >= n) by (nonlinear_arith)
            requires
                n == p * q + rest,
                rest < p,
                q >= 1,
                nearest >= q,
        ;
        assert(nearest * p <= 2 * n) by (nonlinear_arith)
            requires
                n == p * q + rest,
                0 <= rest,
                q >= 1,
                nearest <= q + 1,
                p > 0,
        ;
    }
    nearest * p
}

/// The whole part of `amount * factor`, for a factor that is not negative.
pub fn share_of(amount: Double, factor: Double) -> (r: u64)
    ensures
        r == share(amount, factor),
{
    if amount.nan() || amount.sign() {
        return 0;
    }
    let a: u64 = significand_of(amount);
    let b: u64 = significand_of(factor);
    proof {
        assert(a * b < 0x400_0000_0000_0000_0000_0000_0000) by (nonlinear_arith)
            requires
                a < 0x20_0000_0000_0000,
                b < 0x20_0000_0000_0000,
        ;
    }
    let product: u128 = round((a as u128) * (b as u128));
    let s: u32 = scale_of(amount) + scale_of(factor);
    let ghost exact = product as nat;
    if s > 2148 {
        proof {
            lemma_scaled_up(exact, 2148, s as nat);
            lemma_two_below(0, (s - 2148) as nat);
            vstd::arithmetic::power2::lemma2_to64();
            assert(a * b >= 0x10_0000_0000_0000 * 0x10_0000_0000_0000) by (nonlinear_arith)
                requires
                    a >= 0x10_0000_0000_0000,
                    b >= 0x10_0000_0000_0000,
            ;
            assert(exact * two((s - 2148) as nat) > u64::MAX) by (nonlinear_arith)
                requires
                    exact > u64::MAX,
                    two((s - 2148) as nat) >= 1,
            ;
        }
        return u64::MAX;
    }
    let k: u32 = 2148 - s;
    proof {
        lemma_scaled_quotient(exact, s as nat, 2148);
        vstd::arithmetic::power2::lemma2_to64_rest();
        vstd::arithmetic::power2::lemma_pow2_adds(53, 53);
        vstd::arithmetic::power2::lemma_pow2_unfold(107);
    }
    if k >= 107 {
        proof {
            lemma_two_below(107, k as nat);
            vstd::arithmetic::div_mod::lemma_basic_div(exact as int, two(k as nat) as int);
        }
        return 0;
    }
    let floor: u128 = product / power_of_two(k);
    if floor > u64::MAX as u128 {
        u64::MAX
    } else {
        floor as u64
    }
}

// ── What doubles denote ─────────────────────────────────────────────────

/// Whether the bits are those of the double nearest to `n` hundredths: it is
/// no farther from them than half a unit of its last place.
pub open spec fn is_hundredths(bits: u64, n: nat) -> bool {
    let d = Double { bits };
    let off = 100 * d.size() - n * two(1074);
    &&& d.is_finite()
    &&& !d.negative()
    &&& -100 * two(d.scale()) <= 2 * off <= 100 * two(d.scale())
}

proof fn lemma_hundredths(bits: u64, n: nat, k: nat)
    requires
        (Double { bits }).is_finite(),
        !(Double { bits }).negative(),
        (Double { bits }).scale() + k == 1074,
        -100 <= 2 * (100 * (Double { bits }).significand() - n * two(k)) <= 100,
    ensures
        is_hundredths(bits, n),
{
    let d = Double { bits };
    let p = two(d.scale()) as int;
    let (s, q) = (d.significand() as int, two(k) as int);
    vstd::arithmetic::power2::lemma_pow2_adds(d.scale(), k);
    vstd::arithmetic::power2::lemma_pow2_pos(d.scale());
    assert(100 * (s * p) - n * (p * q) == (100 * s - n * q) * p) by (nonlinear_arith);
    let m = 2 * (100 * s - n * q);
    assert(-100 * p <= m * p <= 100 * p) by (nonlinear_arith)
        requires
            -100 <= m <= 100,
            p > 0,
    ;
    assert(m * p == 2 * ((100 * s - n * q) * p)) by (nonlinear_arith)
        requires
            m == 2 * (100 * s - n * q),
    ;
}

/// Every threshold of this library is the double nearest to its hundredths.
pub proof fn thresholds_are_hundredths()
    ensures
        is_hundredths(ZERO, 0),
        is_hundredths(PRICE_MIN, 1),
        is_hundredths(D004, 4),
        is_hundredths(D005, 5),
        is_hundredths(D006, 6),
        is_hundredths(D007, 7),
        is_hundredths(D010, 10),
        is_hundredths(D015, 15),
        is_hundredths(D020, 20),
        is_hundredths(D025, 25),
        is_hundredths(D030, 30),
        is_hundredths(D035, 35),
        is_hundredths(D040, 40),
        is_hundredths(D045, 45),
        is_hundredths(D050, 50),
        is_hundredths(D055, 55),
        is_hundredths(D060, 60),
        is_hundredths(D065, 65),
        is_hundredths(PRICE_MAX, 99),
        is_hundredths(ONE, 100),
{
    vstd::arithmetic::power2::lemma2_to64();
    vstd::arithmetic::power2::lemma2_to64_rest();
    assert((Double { bits: ZERO }).size() == 0) by (nonlinear_arith)
        requires
            (Double { bits: ZERO }).significand() == 0,
    ;
    lemma_hundredths(PRICE_MIN, 1, 59);
    lemma_hundredths(D004, 4, 57);
    lemma_hundredths(D005, 5, 57);
    lemma_hundredths(D006, 6, 57);
    lemma_hundredths(D007, 7, 56);
    lemma_hundredths(D010, 10, 56);
    lemma_hundredths(D015, 15, 55);
    lemma_hundredths(D020, 20, 55);
    lemma_hundredths(D025, 25, 54);
    lemma_hundredths(D030, 30, 54);
    lemma_hundredths(D035, 35, 54);
    lemma_hundredths(D040, 40, 54);
    lemma_hundredths(D045, 45, 54);
    lemma_hundredths(D050, 50, 53);
    lemma_hundredths(D055, 55, 53);
    lemma_hundredths(D060, 60, 53);
    lemma_hundredths(D065, 65, 53);
    lemma_hundredths(PRICE_MAX, 99, 53);
    lemma_hundredths(ONE, 100, 52);
}

/// Numbers are ordered as their bits are below the sign, with negative ones
/// before the others and the two zeros equal. A NaN is in no order.
pub proof fn order_follows_the_bits(a: Double, b: Double)
    ensures
        a.is_nan() || b.is_nan() ==> !a.lt(b) && !a.ge(b),
        !a.is_nan() && !b.is_nan() ==> (a.ge(b) <==> !a.lt(b)),
        a.bits <= 0x7ff0_0000_0000_0000 ==> !a.is_nan() && !a.negative(),
        a.bits <= 0x7ff0_0000_0000_0000 && b.bits <= 0x7ff0_0000_0000_0000 ==> (a.lt(b) <==> a.bits
            < b.bits),
        0x8000_0000_0000_0000 <= a.bits <= 0xfff0_0000_0000_0000 && 0x8000_0000_0000_0000 <= b.bits
            <= 0xfff0_0000_0000_0000 ==> (a.lt(b) <==> a.bits > b.bits),
        0x8000_0000_0000_0000 <= a.bits <= 0xfff0_0000_0000_0000 && b.bits <= 0x7ff0_0000_0000_0000
            ==> (a.lt(b) <==> !(a.bits == 0x8000_0000_0000_0000 && b.bits == 0)) && !b.lt(a),
        0x7ff0_0000_0000_0000 < a.bits < 0x8000_0000_0000_0000 ==> a.is_nan(),
        0xfff0_0000_0000_0000 < a.bits ==> a.is_nan(),
{
    lemma_order(a, b);
    lemma_order(b, a);
    lemma_fields(a);
    lemma_fields(b);
}

/// What finite bits denote: the bits of the numbers up to the first normal
/// ones count units, the next exponent doubles a number, and the sign bit
/// turns its sign.
pub proof fn bits_count_units(d: Double)
    requires
        d.bits < 0x7ff0_0000_0000_0000,
    ensures
        d.bits < 0x20_0000_0000_0000 ==> d.units() == d.bits,
        0x10_0000_0000_0000 <= d.bits < 0x7fe0_0000_0000_0000 ==> (Double {
            bits: (d.bits + 0x10_0000_0000_0000) as u64,
        }).units() == 2 * d.units(),
        (Double { bits: (d.bits + 0x8000_0000_0000_0000) as u64 }).units() == -d.units(),
{
    lemma_fields(d);
    vstd::arithmetic::power2::lemma2_to64();
    let minus = Double { bits: (d.bits + 0x8000_0000_0000_0000) as u64 };
    lemma_fields(minus);
    lemma_order(d, minus);
    if d.bits < 0x20_0000_0000_0000 {
        assert(d.scale() == 0);
        assert(d.significand() == d.bits);
        assert(d.significand() * 1 == d.significand());
    }
    if 0x10_0000_0000_0000 <= d.bits < 0x7fe0_0000_0000_0000 {
        let next = Double { bits: (d.bits + 0x10_0000_0000_0000) as u64 };
        lemma_fields(next);
        assert(next.exponent() == d.exponent() + 1 && next.fraction() == d.fraction());
        vstd::arithmetic::power2::lemma_pow2_unfold(next.scale());
        let (s, p) = (d.significand() as int, two(d.scale()) as int);
        assert(s * (2 * p) == 2 * (s * p)) by (nonlinear_arith);
    }
}

/// A number that is in the range from 0 to 1 stays as it is when it is moved
/// there, a lower one becomes 0 and a higher one 1.
pub proof fn clamping_keeps_what_fits(d: Double)
    ensures
        d.bits <= 0x3ff0_0000_0000_0000 ==> d.unit_clamped() == d,
        0x3ff0_0000_0000_0000 < d.bits <= 0x7ff0_0000_0000_0000 ==> is_hundredths(
            d.unit_clamped().bits,
            100,
        ),
        0x8000_0000_0000_0000 < d.bits <= 0xfff0_0000_0000_0000 ==> d.unit_clamped().bits == 0,
        d.is_nan() ==> d.unit_clamped() == d,
{
    let (zero, one) = (Double { bits: ZERO }, Double { bits: ONE });
    order_follows_the_bits(d, zero);
    order_follows_the_bits(one, d);
    thresholds_are_hundredths();
}

/// Rounding a whole number by a power of two gives the nearest multiple.
pub proof fn nearest_quotient_is_nearest(n: nat, k: nat)
    ensures
        -two(k) <= 2 * (n - nearest_quotient(n, k) * two(k)) <= two(k),
        2 * (n - nearest_quotient(n, k) * two(k)) == two(k) || 2 * (n - nearest_quotient(n, k) * two(
            k,
        )) == -two(k) ==> nearest_quotient(n, k) % 2 == 0,
{
    let p = two(k) as int;
    vstd::arithmetic::power2::lemma_pow2_pos(k);
    let (q, r) = (n as int / p, n as int % p);
    vstd::arithmetic::div_mod::lemma_fundamental_div_mod(n as int, p);
    assert(p * q == q * p) by (nonlinear_arith);
    assert((q + 1) * p == q * p + p) by (nonlinear_arith);
    vstd::arithmetic::div_mod::lemma_mod_bound(n as int, p);
}

/// A number that fits a significand stays as it is when it is rounded, and any
/// other is off by one part in 2 to the power of 53 at most.
pub proof fn rounding_is_close(n: nat)
    ensures
        n < two(53) ==> rounded(n) == n,
        -n <= two(53) * (rounded(n) - n) <= n,
{
    lemma_bit_length(n);
    vstd::arithmetic::power2::lemma2_to64_rest();
    if bit_length(n) > 53 {
        let k = (bit_length(n) - 53) as nat;
        let p = two(k) as int;
        nearest_quotient_is_nearest(n, k);
        vstd::arithmetic::power2::lemma_pow2_adds(52, k);
        lemma_two_below(53, (bit_length(n) - 1) as nat);
        let off = rounded(n) - n;
        assert(2 * -off <= p && -p <= 2 * -off);
        assert(two(52) * p <= n);
        assert(-(two(52) * p) <= two(53) * off <= two(52) * p) by (nonlinear_arith)
            requires
                -p <= 2 * off <= p,
                two(53) == 2 * two(52),
                two(52) > 0,
        ;
    } else {
        if n >= two(53) {
            lemma_two_below(bit_length(n), 53);
        }
    }
}

/// A share is the whole part of the product of the amount and the factor, up
/// to one part in 2 to the power of 53 of the product, or the largest 64-bit
/// number where that is less. Nothing is a share of an amount that is negative
/// or no number.
pub proof fn share_is_the_whole_part(amount: Double, factor: Double)
    ensures
        amount.is_nan() || amount.negative() ==> share(amount, factor) == 0,
        !amount.is_nan() && !amount.negative() ==> {
            let product = amount.size() * factor.size();
            let parts = two(53) * two(2148);
            &&& share(amount, factor) * parts <= (two(53) + 1) * product
            &&& share(amount, factor) == u64::MAX || (two(53) - 1) * product < (share(
                amount,
                factor,
            ) + 1) * parts
        },
{
    if !amount.is_nan() && !amount.negative() {
        let (a, f) = (amount.significand() as int, factor.significand() as int);
        let (p, q) = (two(amount.scale()) as int, two(factor.scale()) as int);
        let n = (amount.significand() * factor.significand()) as int;
        let r = rounded(amount.significand() * factor.significand()) as int;
        let one = two(2148) as int;
        let t = two(53) as int;
        vstd::arithmetic::power2::lemma_pow2_adds(amount.scale(), factor.scale());
        vstd::arithmetic::power2::lemma_pow2_pos(2148);
        vstd::arithmetic::power2::lemma_pow2_pos(53);
        vstd::arithmetic::power2::lemma_pow2_pos(amount.scale());
        vstd::arithmetic::power2::lemma_pow2_pos(factor.scale());
        rounding_is_close(amount.significand() * factor.significand());
        let product = amount.size() * factor.size();
        assert((a * p) * (f * q) == (a * f) * (p * q)) by (nonlinear_arith);
        let pq = p * q;
        assert(pq > 0) by (nonlinear_arith)
            requires
                pq == p * q,
                p > 0,
                q > 0,
        ;
        let exact = r * pq;
        let floor = exact / one;
        vstd::arithmetic::div_mod::lemma_fundamental_div_mod(exact, one);
        vstd::arithmetic::div_mod::lemma_mod_bound(exact, one);
        assert(one * floor <= exact < one * floor + one);
        assert(floor >= 0) by {
            assert(exact >= 0) by (nonlinear_arith)
                requires
                    exact == r * pq,
                    r >= 0,
                    pq > 0,
            ;
            vstd::arithmetic::div_mod::lemma_div_pos_is_pos(exact, one);
        }
        let s = share(amount, factor) as int;
        assert(t * r <= (t + 1) * n && (t - 1) * n <= t * r) by (nonlinear_arith)
            requires
                -n <= t * (r - n) <= n,
        ;
        assert(t * exact <= (t + 1) * (n * pq)) by (nonlinear_arith)
            requires
                exact == r * pq,
                t * r <= (t + 1) * n,
                pq > 0,
        ;
        assert((t - 1) * (n * pq) <= t * exact) by (nonlinear_arith)
            requires
                exact == r * pq,
                (t - 1) * n <= t * r,
                pq > 0,
        ;
        assert(s * (t * one) <= t * exact) by (nonlinear_arith)
            requires
                s <= floor,
                one * floor <= exact,
                t > 0,
                one > 0,
        ;
        if s != u64::MAX {
            assert(t * exact < (s + 1) * (t * one)) by (nonlinear_arith)
                requires
                    s == floor,
                    exact < one * floor + one,
                    t > 0,
            ;
        }
    }
}

/// Cutting a number off gives the largest whole number that is not above it,
/// as far as 64 bits hold it; nothing is below zero, and a NaN is zero.
pub proof fn whole_parts_are_floors(d: Double)
    ensures
        d.is_nan() || d.negative() ==> whole(d) == 0,
        !d.is_nan() && !d.negative() && whole(d) < u64::MAX ==> whole(d) * two(1074) <= d.units() < (
        whole(d) + 1) * two(1074),
        !d.is_nan() && !d.negative() && whole(d) == u64::MAX ==> u64::MAX * two(1074) <= d.units(),
{
    let one = two(1074) as int;
    let size = d.size() as int;
    vstd::arithmetic::power2::lemma_pow2_pos(1074);
    vstd::arithmetic::div_mod::lemma_fundamental_div_mod(size, one);
    vstd::arithmetic::div_mod::lemma_mod_bound(size, one);
    let floor = size / one;
    assert(one * floor == floor * one) by (nonlinear_arith);
    assert((floor + 1) * one == floor * one + one) by (nonlinear_arith);
    if floor > u64::MAX {
        assert(u64::MAX * one <= floor * one) by (nonlinear_arith)
            requires
                u64::MAX <= floor,
                one > 0,
        ;
    }
}

/// A whole number exceeds a balance exactly where it is more than the balance
/// holds in whole chips. A number that is not there is never exceeded, and a
/// negative one is by zero.
pub proof fn exceeding_goes_by_whole_chips(n: nat, d: Double)
    requires
        n <= u64::MAX,
    ensures
        d.is_nan() ==> !exceeds(n, d),
        !d.is_nan() && !d.negative() ==> (exceeds(n, d) <==> n > whole(d)),
        !d.is_nan() && d.negative() && d.size() > 0 ==> exceeds(n, d),
{
    whole_parts_are_floors(d);
    let one = two(1074) as int;
    let w = whole(d) as int;
    vstd::arithmetic::power2::lemma_pow2_pos(1074);
    assert(n * one >= 0) by (nonlinear_arith)
        requires
            one > 0,
    ;
    if n > w {
        assert(n * one >= (w + 1) * one) by (nonlinear_arith)
            requires
                n >= w + 1,
                one > 0,
        ;
    } else {
        assert(n * one <= w * one) by (nonlinear_arith)
            requires
                n <= w,
                one > 0,
        ;
    }
}

} // verus!
