//! Calibrated analog readings.
use vstd::arithmetic::div_mod::*;
use vstd::arithmetic::mul::*;
use vstd::arithmetic::power2::*;
use vstd::bits::*;
use vstd::prelude::*;

use crate::rounding::{
    clamp, decimal, difference, half_even, lemma_grid, lemma_half_even_exact,
    lemma_half_even_monotone, lemma_half_even_scale,
    lemma_nearest_absorbs, lemma_nearest_exact, lemma_nearest_monotone, lemma_nearest_scale,
    lemma_nearest_to_one, lemma_pow2_order, lemma_quotient_of_whole, lemma_rounding_bounds,
    nearest, one, quotient, sum,
};

pub mod laws;

verus! {

/// An analog reading between -1 and 1, at single precision.
///
/// The value is `mantissa / 2^exponent` with a sign. It has one representation,
/// but for zero, which has a sign too: a centred stick whose axis is flipped
/// reads -0.
#[derive(Clone, Copy, Debug)]
pub struct Reading {
    negative: bool,
    mantissa: u32,
    exponent: u32,
}

impl Reading {
    /// What every reading meets: the mantissa fills 24 bits unless the exponent
    /// is the smallest that the format has, and the value is at most 1.
    #[verifier::type_invariant]
    pub closed spec fn wf(self) -> bool {
        &&& self.mantissa < 0x100_0000
        &&& self.exponent <= 149
        &&& self.exponent < 149 ==> self.mantissa >= 0x80_0000
        &&& self.exponent > 23 || (self.exponent == 23 && self.mantissa == 0x80_0000)
    }

    /// The absolute value, in units of 2^-149.
    pub closed spec fn magnitude(self) -> int {
        self.mantissa * pow2((149 - self.exponent) as nat)
    }

    /// Whether the sign is set.
    pub closed spec fn is_negative(self) -> bool {
        self.negative
    }

    /// The value, in units of 2^-149.
    pub open spec fn units(self) -> int {
        if self.is_negative() {
            -self.magnitude()
        } else {
            self.magnitude()
        }
    }

    /// A reading is a value that single precision has.
    pub proof fn lemma_representable(self)
        requires
            self.wf(),
        ensures
            nearest(self.magnitude(), 1) == self.magnitude(),
    {
        lemma_nearest_exact(self.mantissa as int, (149 - self.exponent) as nat);
    }

    /// A reading is at most 1 either way.
    pub proof fn lemma_bounds(self)
        requires
            self.wf(),
        ensures
            0 <= self.magnitude() <= one(),
            -one() <= self.units() <= one(),
            0 < one(),
    {
        lemma2_to64();
        lemma_pow2_pos(149);
        let k = (149 - self.exponent) as nat;
        lemma_pow2_pos(k);
        lemma_pow2_adds(24, k);
        lemma_pow2_adds(23, 126);
        lemma_mul_inequality(0, self.mantissa as int, pow2(k) as int);
        if self.exponent > 23 {
            lemma_pow2_order(24 + k, 149);
            lemma_mul_inequality(self.mantissa as int, 0x100_0000, pow2(k) as int);
        }
    }
}

impl PartialEq for Reading {
    /// Equal values; the sign of zero does not matter.
    fn eq(&self, other: &Reading) -> (r: bool) {
        proof {
            use_type_invariant(self);
            use_type_invariant(other);
            lemma_magnitude_order(*self, *other);
            lemma_magnitude_order(*other, *self);
            lemma_zero_mantissa(*self);
            lemma_zero_mantissa(*other);
        }
        if self.mantissa == 0 && other.mantissa == 0 {
            true
        } else {
            self.negative == other.negative && self.mantissa == other.mantissa && self.exponent
                == other.exponent
        }
    }
}

impl vstd::std_specs::cmp::PartialEqSpecImpl for Reading {
    open spec fn obeys_eq_spec() -> bool {
        true
    }

    open spec fn eq_spec(&self, other: &Reading) -> bool {
        self.units() == other.units()
    }
}

/// Only zero has an empty mantissa.
proof fn lemma_zero_mantissa(r: Reading)
    requires
        r.wf(),
    ensures
        r.magnitude() >= 0,
        r.mantissa == 0 <==> r.magnitude() == 0,
{
    let k = (149 - r.exponent) as nat;
    lemma_pow2_pos(k);
    lemma_mul_basics(pow2(k) as int);
    lemma_mul_inequality(0, r.mantissa as int, pow2(k) as int);
    if r.mantissa > 0 {
        lemma_mul_inequality(1, r.mantissa as int, pow2(k) as int);
    }
}

/// A mantissa and an exponent that some single-precision value has.
spec fn is_normal(mantissa: u32, exponent: u32) -> bool {
    &&& mantissa < 0x100_0000
    &&& exponent <= 149
    &&& exponent < 149 ==> mantissa >= 0x80_0000
}

/// Rounds `p / q / 2^e` to single precision.
fn round(p0: u64, q0: u64, e0: u32) -> (r: (u32, u32))
    requires
        0 < q0,
        e0 <= 149,
        p0 <= 2 * q0 * pow2(e0 as nat),
    ensures
        is_normal(r.0, r.1),
        r.0 * pow2((149 - r.1) as nat) == nearest(p0 * pow2((149 - e0) as nat), q0 as int),
{
    let mut p: u128 = p0 as u128;
    let mut q: u128 = q0 as u128;
    let mut e: u32 = e0;
    let ghost target = nearest(p0 * pow2((149 - e0) as nat), q0 as int);
    while p >= 0x100_0000 * q
        invariant
            0 < q <= 0x1_0000_0000_0000_0000,
            p <= 0xffff_ffff_ffff_ffff,
            e <= 149,
            p <= 2 * q * pow2(e as nat),
            nearest(p * pow2((149 - e) as nat), q as int) == target,
        decreases e,
    {
        proof {
            lemma2_to64();
            assert(e > 0) by {
                if e == 0 {
                    assert(2 * q * pow2(e as nat) == 2 * q) by (nonlinear_arith)
                        requires
                            pow2(e as nat) == 1,
                    ;
                }
            }
            let k = (149 - e) as nat;
            lemma_pow2_unfold((k + 1) as nat);
            lemma_pow2_unfold(e as nat);
            lemma_pow2_pos(k);
            assert(p * pow2((k + 1) as nat) == (p * pow2(k)) * 2) by (nonlinear_arith)
                requires
                    pow2((k + 1) as nat) == 2 * pow2(k),
            ;
            assert(p * pow2(k) >= 0) by (nonlinear_arith)
                requires
                    p >= 0,
                    pow2(k) > 0,
            ;
            lemma_nearest_scale(p * pow2(k), q as int, 2);
            assert(2 * q * pow2(e as nat) == 2 * (2 * q) * pow2((e - 1) as nat)) by (nonlinear_arith)
                requires
                    pow2(e as nat) == 2 * pow2((e - 1) as nat),
            ;
        }
        q = q * 2;
        e = e - 1;
    }
    while p < 0x80_0000 * q && e < 149
        invariant
            0 < q <= 0x1_0000_0000_0000_0000,
            p < 0x100_0000 * q,
            e <= 149,
            p <= 2 * q * pow2(e as nat),
            nearest(p * pow2((149 - e) as nat), q as int) == target,
        decreases 149 - e,
    {
        proof {
            let k = (149 - e) as nat;
            lemma_pow2_unfold(k);
            assert(p * pow2(k) == (2 * p) * pow2((k - 1) as nat)) by (nonlinear_arith)
                requires
                    pow2(k) == 2 * pow2((k - 1) as nat),
            ;
            lemma_pow2_unfold((e + 1) as nat);
            assert(2 * p <= 2 * q * pow2((e + 1) as nat)) by (nonlinear_arith)
                requires
                    p <= 2 * q * pow2(e as nat),
                    pow2((e + 1) as nat) == 2 * pow2(e as nat),
            ;
        }
        p = p * 2;
        e = e + 1;
    }
    proof {
        lemma2_to64();
        let k = (149 - e) as nat;
        let s = pow2(k) as int;
        lemma_pow2_pos(k);
        lemma_pow2_adds(24, k);
        lemma_pow2_adds(23, k);
        assert(p * s < (0x100_0000 * s) * q) by (nonlinear_arith)
            requires
                p < 0x100_0000 * q,
                s > 0,
        ;
        if k > 0 {
            assert(p * s >= (0x80_0000 * s) * q) by (nonlinear_arith)
                requires
                    p >= 0x80_0000 * q,
                    s > 0,
            ;
        }
        assert(p * s >= 0) by (nonlinear_arith)
            requires
                p >= 0,
                s > 0,
        ;
        lemma_grid(24, p * s, q as int, k);
        assert(s * q == q * s) by (nonlinear_arith);
        lemma_half_even_scale(p as int, q as int, s);
        lemma_rounding_bounds(24, p * s, q as int, k);
    }
    let floor: u128 = p / q;
    let rest: u128 = p % q;
    let up: bool = 2 * rest > q || (2 * rest == q && floor % 2 == 1);
    assert(floor <= 0x100_0000) by (nonlinear_arith)
        requires
            floor == p / q,
            p < 0x100_0000 * q,
            q > 0,
    ;
    let mantissa: u32 = if up {
        floor as u32 + 1
    } else {
        floor as u32
    };
    assert(mantissa == half_even(p as int, q as int));
    if mantissa == 0x100_0000 {
        proof {
            assert(e > 0) by {
                if e == 0 {
                    assert(2 * q * pow2(e as nat) == 2 * q) by (nonlinear_arith)
                        requires
                            pow2(e as nat) == 1,
                    ;
                    assert(floor <= 2) by (nonlinear_arith)
                        requires
                            floor == p / q,
                            p <= 2 * q,
                            q > 0,
                    ;
                }
            }
            lemma_pow2_unfold((150 - e) as nat);
        }
        (0x80_0000, e - 1)
    } else {
        (mantissa, e)
    }
}

impl Reading {
    fn positive(mantissa: u32, exponent: u32) -> (r: Reading)
        requires
            is_normal(mantissa, exponent),
            mantissa * pow2((149 - exponent) as nat) <= one(),
        ensures
            r.magnitude() == mantissa * pow2((149 - exponent) as nat),
            !r.is_negative(),
    {
        proof {
            lemma2_to64();
            lemma_pow2_adds(23, 126);
            lemma_pow2_pos(126);
            if exponent < 23 {
                let k = (149 - exponent) as nat;
                lemma_pow2_strictly_increases(126, k);
                lemma_mul_inequality(0x80_0000, mantissa as int, pow2(k) as int);
                assert(false);
            }
            if exponent == 23 {
                assert(mantissa <= 0x80_0000) by (nonlinear_arith)
                    requires
                        mantissa * pow2(126) <= 0x80_0000 * pow2(126),
                        pow2(126) > 0,
                ;
            }
        }
        Reading { negative: false, mantissa, exponent }
    }

    /// Fully released, or centred.
    pub fn zero() -> (r: Reading)
        ensures
            r.units() == 0,
            !r.is_negative(),
    {
        Reading { negative: false, mantissa: 0, exponent: 149 }
    }

    /// Fully pulled, or fully to one side.
    pub fn full() -> (r: Reading)
        ensures
            r.units() == one(),
            !r.is_negative(),
    {
        proof {
            lemma2_to64();
            lemma_pow2_adds(23, 126);
        }
        Reading { negative: false, mantissa: 0x80_0000, exponent: 23 }
    }

    /// Whether the sign is set.
    pub fn negative(self) -> (r: bool)
        ensures
            r == self.is_negative(),
    {
        self.negative
    }

    /// The reading with its sign flipped.
    pub fn negated(self) -> (r: Reading)
        ensures
            r.units() == -self.units(),
            r.is_negative() == !self.is_negative(),
    {
        proof {
            use_type_invariant(&self);
        }
        Reading { negative: !self.negative, mantissa: self.mantissa, exponent: self.exponent }
    }

    /// `numerator / denominator`, held between -1 and 1.
    pub fn ratio(numerator: i32, denominator: u32) -> (r: Reading)
        requires
            denominator > 0,
        ensures
            r.units() == clamp(
                quotient(numerator * one(), denominator * one()),
                -one(),
                one(),
            ),
            r.is_negative() == (numerator < 0),
    {
        let size: u64 = if numerator < 0 {
            (-(numerator as i64)) as u64
        } else {
            numerator as u64
        };
        let limit: u64 = denominator as u64;
        let held: u64 = if size > limit {
            limit
        } else {
            size
        };
        proof {
            lemma2_to64();
            lemma_pow2_pos(149);
            lemma_quotient_of_whole(numerator as int, denominator as int);
            assert(-(numerator * one()) == (-numerator) * one()) by (nonlinear_arith);
            assert(numerator * one() < 0 <==> numerator < 0) by (nonlinear_arith)
                requires
                    one() > 0,
            ;
            lemma_mul_inequality(0, size as int, one());
            lemma_mul_inequality(0, held as int, one());
            if size > limit {
                lemma_mul_inequality(limit as int, size as int, one());
            } else {
                lemma_mul_inequality(size as int, limit as int, one());
            }
            lemma_nearest_to_one(size * one(), limit as int);
            lemma_nearest_to_one(held * one(), limit as int);
        }
        let (mantissa, exponent) = round(held, limit, 0);
        let r = Self::positive(mantissa, exponent);
        if numerator < 0 {
            r.negated()
        } else {
            r
        }
    }

    /// Whether the absolute value is at most that of `other`.
    fn no_larger(self, other: Reading) -> (r: bool)
        ensures
            r == (self.magnitude() <= other.magnitude()),
    {
        proof {
            use_type_invariant(&self);
            use_type_invariant(&other);
            lemma_magnitude_order(self, other);
            lemma_magnitude_order(other, self);
        }
        self.exponent > other.exponent || (self.exponent == other.exponent && self.mantissa
            <= other.mantissa)
    }
}

/// The deadzone that takes effect, between 0 and 1.
pub open spec fn effective_deadzone(deadzone: int) -> int {
    clamp(deadzone, 0, one())
}

/// Travel `v` with the deadzone taken out: nothing inside it, and the rest
/// stretched back over the whole range. A full pull stays one, even where the
/// deadzone leaves nothing else.
pub open spec fn rescaled(v: int, deadzone: int) -> int {
    let dz = effective_deadzone(deadzone);
    if v == one() {
        one()
    } else if v <= dz {
        0
    } else {
        clamp(quotient(difference(v, dz), difference(one(), dz)), 0, one())
    }
}

impl Reading {
    /// `self - other`, rounded.
    fn minus(self, other: Reading) -> (r: Reading)
        requires
            0 <= other.units() < self.units(),
        ensures
            r.units() == difference(self.units(), other.units()),
            0 < r.units(),
            !r.is_negative(),
    {
        proof {
            use_type_invariant(&self);
            use_type_invariant(&other);
            self.lemma_bounds();
            other.lemma_bounds();
            lemma_magnitude_order(self, other);
            lemma_magnitude_order(other, self);
            lemma2_to64();
            lemma_nearest_exact(1, 0);
            lemma_nearest_monotone(1, 1, self.units() - other.units(), 1);
            lemma_nearest_to_one(self.units() - other.units(), 1);
        }
        let shift: u32 = other.exponent - self.exponent;
        if shift >= 26 {
            proof {
                let k = (149 - self.exponent) as nat;
                let j = (149 - other.exponent) as nat;
                lemma_pow2_pos(j);
                lemma_pow2_adds(26, j);
                lemma_pow2_order((26 + j) as nat, k);
                assert(pow2(26) == 4 * 0x100_0000);
                assert(4 * other.magnitude() < pow2(k)) by (nonlinear_arith)
                    requires
                        other.magnitude() == other.mantissa * pow2(j),
                        other.mantissa < 0x100_0000,
                        4 * 0x100_0000 * pow2(j) <= pow2(k),
                        pow2(j) > 0,
                ;
                lemma_nearest_absorbs(self.mantissa as int, k, -other.magnitude());
            }
            return Reading { negative: false, mantissa: self.mantissa, exponent: self.exponent };
        }
        let scale: u64 = 1u64 << (shift as u64);
        proof {
            lemma_pow2_order(shift as nat, 25);
            lemma_u64_shl_is_mul(1, shift as u64);
            let j = (149 - other.exponent) as nat;
            lemma_pow2_pos(j);
            lemma_pow2_adds(shift as nat, j);
            lemma_pow2_adds(other.exponent as nat, j);
            let p = self.mantissa * scale - other.mantissa;
            assert(self.units() - other.units() == p * pow2(j)) by (nonlinear_arith)
                requires
                    self.units() == self.mantissa * pow2((149 - self.exponent) as nat),
                    other.units() == other.mantissa * pow2(j),
                    pow2((149 - self.exponent) as nat) == scale * pow2(j),
                    p == self.mantissa * scale - other.mantissa,
            ;
            assert(0 < p <= pow2(other.exponent as nat)) by (nonlinear_arith)
                requires
                    0 < p * pow2(j) <= pow2(other.exponent as nat) * pow2(j),
                    pow2(j) > 0,
            ;
            assert(self.mantissa * scale <= 0x100_0000 * 0x200_0000) by (nonlinear_arith)
                requires
                    self.mantissa <= 0x100_0000,
                    scale <= 0x200_0000,
            ;
        }
        let p: u64 = self.mantissa as u64 * scale - other.mantissa as u64;
        let (mantissa, exponent) = round(p, 1, other.exponent);
        Self::positive(mantissa, exponent)
    }

    /// `self / other`, rounded.
    fn over(self, other: Reading) -> (r: Reading)
        requires
            0 <= self.units() <= other.units(),
            0 < other.units(),
        ensures
            r.units() == quotient(self.units(), other.units()),
            0 <= r.units(),
            !r.is_negative(),
    {
        proof {
            use_type_invariant(&self);
            use_type_invariant(&other);
            lemma_magnitude_order(other, self);
            let (a, b) = (self.magnitude(), other.magnitude());
            lemma_pow2_pos(149);
            lemma_mul_inequality(0, a, one());
            lemma_mul_inequality(a, b, one());
            lemma_nearest_to_one(a * one(), b);
            let e = (self.exponent - other.exponent) as nat;
            let ja = (149 - self.exponent) as nat;
            let jb = (149 - other.exponent) as nat;
            lemma_pow2_pos(ja);
            lemma_pow2_pos(jb);
            lemma_pow2_adds(ja, e);
            lemma_pow2_adds((149 - e) as nat, jb);
            lemma_pow2_adds(ja, 149);
            let (sa, sb, se) = (pow2(ja) as int, pow2(jb) as int, pow2(e) as int);
            assert(self.mantissa <= other.mantissa * se) by (nonlinear_arith)
                requires
                    self.mantissa * sa <= other.mantissa * sb,
                    sb == sa * se,
                    sa > 0,
            {
                assert(other.mantissa * sb == (other.mantissa * se) * sa);
            }
            let n = self.mantissa * pow2((149 - e) as nat);
            lemma_pow2_pos((149 - e) as nat);
            lemma_mul_inequality(0, self.mantissa as int, pow2((149 - e) as nat) as int);
            assert(2 * other.mantissa * se >= other.mantissa * se) by (nonlinear_arith)
                requires
                    other.mantissa >= 0,
                    se >= 0,
            ;
            assert(n * sb == a * one()) by (nonlinear_arith)
                requires
                    n == self.mantissa * pow2((149 - e) as nat),
                    a == self.mantissa * sa,
                    pow2((149 - e) as nat) * sb == sa * one(),
            ;
            lemma_nearest_scale(n, other.mantissa as int, sb);
        }
        let (mantissa, exponent) = round(
            self.mantissa as u64,
            other.mantissa as u64,
            self.exponent - other.exponent,
        );
        Self::positive(mantissa, exponent)
    }

    /// Takes a deadzone out of a trigger's travel.
    ///
    /// The travel is rescaled rather than shifted, so a fully pulled trigger
    /// still reads exactly 1.
    pub fn past_deadzone(self, deadzone: Reading) -> (r: Reading)
        requires
            0 <= self.units(),
        ensures
            r.units() == rescaled(self.units(), deadzone.units()),
            !r.is_negative(),
    {
        let full = Reading::full();
        let dz = if deadzone.negative {
            Reading::zero()
        } else {
            deadzone
        };
        proof {
            use_type_invariant(&self);
            use_type_invariant(&deadzone);
            self.lemma_bounds();
            deadzone.lemma_bounds();
            assert(dz.units() == effective_deadzone(deadzone.units()));
            lemma_rescaled(self.units(), deadzone.units());
        }
        if full.no_larger(self) {
            full
        } else if self.no_larger(dz) {
            Reading::zero()
        } else {
            self.minus(dz).over(full.minus(dz))
        }
    }
}

/// An axis between -1 and 1 moved onto the range from 0 to 1, 0.5 centred.
pub open spec fn on_unit_axis(v: int) -> int {
    quotient(sum(v, one()), 2 * one())
}

impl Reading {
    /// Maps -1 to 1 onto 0 to 1, 0.5 centred.
    pub fn to_unit(self) -> (r: Reading)
        ensures
            r.units() == on_unit_axis(self.units()),
            0 <= r.units(),
            !r.is_negative(),
    {
        proof {
            use_type_invariant(&self);
            self.lemma_bounds();
            lemma2_to64();
        }
        if self.exponent >= 49 {
            proof {
                let j = (149 - self.exponent) as nat;
                lemma_pow2_pos(j);
                lemma_pow2_adds(26, j);
                lemma_pow2_order((26 + j) as nat, 126);
                lemma_pow2_adds(23, 126);
                assert(pow2(26) == 4 * 0x100_0000);
                assert(4 * self.magnitude() < pow2(126)) by (nonlinear_arith)
                    requires
                        self.magnitude() == self.mantissa * pow2(j),
                        self.mantissa < 0x100_0000,
                        4 * 0x100_0000 * pow2(j) <= pow2(126),
                        pow2(j) > 0,
                ;
                lemma_nearest_absorbs(0x80_0000, 126, self.units());
                lemma_halving(0x80_0000, 126);
                lemma_pow2_unfold(126);
            }
            return Reading { negative: false, mantissa: 0x80_0000, exponent: 24 };
        }
        let whole: u64 = 1u64 << (self.exponent as u64);
        let ghost j = (149 - self.exponent) as nat;
        proof {
            lemma_pow2_order(self.exponent as nat, 48);
            lemma_pow2_adds(24, 24);
            lemma_u64_shl_is_mul(1, self.exponent as u64);
            lemma_pow2_pos(j);
            lemma_pow2_adds(self.exponent as nat, j);
            assert(self.mantissa <= whole) by (nonlinear_arith)
                requires
                    self.mantissa * pow2(j) <= whole * pow2(j),
                    pow2(j) > 0,
            ;
        }
        let p: u64 = if self.negative {
            whole - self.mantissa as u64
        } else {
            whole + self.mantissa as u64
        };
        proof {
            assert(self.units() + one() == p * pow2(j)) by (nonlinear_arith)
                requires
                    self.units() == (if self.negative {
                        -(self.mantissa * pow2(j))
                    } else {
                        self.mantissa * pow2(j)
                    }),
                    one() == whole * pow2(j),
                    p == (if self.negative {
                        whole - self.mantissa
                    } else {
                        whole + self.mantissa
                    }),
            ;
        }
        let (mantissa, exponent) = round(p, 1, self.exponent);
        let ghost w = sum(self.units(), one());
        if p == 0 {
            proof {
                lemma_nearest_exact(0, 0);
                assert(quotient(0, 2 * one()) == 0) by {
                    lemma_pow2_pos(149);
                    lemma_mul_basics(one());
                    lemma_mul_basics(pow2(0) as int);
                    lemma_nearest_monotone(0, 2 * one(), 0, 1);
                }
                lemma_mul_basics(pow2(j) as int);
            }
            return Reading::zero();
        }
        proof {
            let k = (149 - exponent) as nat;
            lemma_mul_inequality(1, p as int, pow2(j) as int);
            lemma_nearest_exact(1, j);
            lemma_nearest_monotone(pow2(j) as int, 1, p * pow2(j), 1);
            lemma_pow2_order(24, j);
            lemma_mul_basics(mantissa as int);
            lemma_mul_basics(pow2(j) as int);
            assert(exponent < 149) by {
                if exponent == 149 {
                    assert(pow2(k) == 1);
                }
            }
            lemma_pow2_unfold(k);
            lemma_halving(mantissa as int, k);
            assert(w == mantissa * pow2(k));
            lemma_unit_axis_bounds(self.units());
        }
        Self::positive(mantissa, exponent + 1)
    }
}

/// The sign that an encoded single-precision number carries.
pub open spec fn bits_negative(bits: u32) -> bool {
    bits >= 0x8000_0000
}

/// The exponent field of an encoded single-precision number.
pub open spec fn bits_exponent(bits: u32) -> int {
    (bits as int / 0x80_0000) % 256
}

/// The fraction field of an encoded single-precision number.
pub open spec fn bits_fraction(bits: u32) -> int {
    bits as int % 0x80_0000
}

/// Whether the encoding stands for a number, be it an infinite one.
pub open spec fn bits_are_number(bits: u32) -> bool {
    bits_exponent(bits) < 255 || bits_fraction(bits) == 0
}

/// The absolute value that an encoded number has, in units of 2^-149. An
/// infinite one counts as larger than all others.
pub open spec fn bits_magnitude(bits: u32) -> int {
    if bits_exponent(bits) == 0 {
        bits_fraction(bits)
    } else {
        (0x80_0000 + bits_fraction(bits)) * (pow2((bits_exponent(bits) - 1) as nat) as int)
    }
}

/// The value that an encoded number has, in units of 2^-149.
pub open spec fn bits_units(bits: u32) -> int {
    if bits_negative(bits) {
        -bits_magnitude(bits)
    } else {
        bits_magnitude(bits)
    }
}

/// The value that an encoded number has, held between -1 and 1.
pub open spec fn bits_held(bits: u32) -> int {
    clamp(bits_units(bits), -one(), one())
}

impl Reading {
    /// Reads an IEEE 754 single-precision encoding, if it is one of a number
    /// between -1 and 1.
    pub fn from_bits(bits: u32) -> (r: Option<Reading>)
        ensures
            r is Some <==> bits_magnitude(bits) <= one(),
            r matches Some(v) ==> v.units() == bits_units(bits) && v.is_negative()
                == bits_negative(bits),
    {
        let field: u32 = (bits / 0x80_0000) % 256;
        let fraction: u32 = bits % 0x80_0000;
        proof {
            lemma2_to64();
            lemma_pow2_pos(149);
            lemma_pow2_adds(23, 126);
            let k = (field - 1) as nat;
            lemma_pow2_pos(k);
            if 0 < field < 127 {
                lemma_pow2_adds(24, k);
                lemma_pow2_order(24 + k, 149);
                lemma_mul_inequality(0x80_0000 + fraction, 0x100_0000, pow2(k) as int);
            } else if field == 0 {
                lemma_pow2_order(23, 149);
                lemma_mul_basics(fraction as int);
            } else if field == 127 {
                if fraction > 0 {
                    lemma_mul_strict_inequality(0x80_0000, 0x80_0000 + fraction, pow2(k) as int);
                }
            } else {
                lemma_pow2_strictly_increases(126, k);
                lemma_mul_inequality(0x80_0000, 0x80_0000 + fraction, pow2(k) as int);
            }
        }
        if field > 127 || (field == 127 && fraction > 0) {
            None
        } else if field == 0 {
            Some(Reading { negative: bits >= 0x8000_0000, mantissa: fraction, exponent: 149 })
        } else {
            Some(
                Reading {
                    negative: bits >= 0x8000_0000,
                    mantissa: 0x80_0000 + fraction,
                    exponent: 150 - field,
                },
            )
        }
    }

    /// Reads an IEEE 754 single-precision encoding of any number, held between
    /// -1 and 1. `None` if it does not stand for a number.
    pub fn clamped_from_bits(bits: u32) -> (r: Option<Reading>)
        ensures
            r is Some <==> bits_are_number(bits),
            r matches Some(v) ==> v.units() == bits_held(bits) && v.is_negative() == bits_negative(
                bits,
            ),
    {
        let field: u32 = (bits / 0x80_0000) % 256;
        let fraction: u32 = bits % 0x80_0000;
        proof {
            lemma_bits_within_one(bits);
        }
        if field == 255 && fraction > 0 {
            return None;
        }
        match Reading::from_bits(bits) {
            Some(r) => {
                proof {
                    use_type_invariant(&r);
                    r.lemma_bounds();
                }
                Some(r)
            },
            None => {
                if bits >= 0x8000_0000 {
                    Some(Reading::full().negated())
                } else {
                    Some(Reading::full())
                }
            },
        }
    }

    /// The reading's IEEE 754 single-precision encoding.
    pub fn to_bits(self) -> (bits: u32)
        ensures
            bits_units(bits) == self.units(),
            bits_magnitude(bits) == self.magnitude(),
            bits_negative(bits) == self.is_negative(),
    {
        proof {
            use_type_invariant(&self);
            lemma2_to64();
            lemma_mul_basics(self.mantissa as int);
        }
        let body: u32 = if self.mantissa < 0x80_0000 {
            self.mantissa
        } else {
            (150 - self.exponent) * 0x80_0000 + (self.mantissa - 0x80_0000)
        };
        if self.negative {
            0x8000_0000 + body
        } else {
            body
        }
    }

    /// The absolute value in steps of one `scale`-th, rounded to the nearest
    /// and on a tie to the even one.
    pub fn steps(self, scale: u32) -> (r: u32)
        requires
            0 < scale <= 10_000,
        ensures
            r == decimal(self.magnitude(), scale as int),
            r <= scale,
    {
        assert(self.mantissa * scale <= 0xffff_ffff * 10_000) by (nonlinear_arith)
            requires
                self.mantissa <= 0xffff_ffff,
                0 < scale <= 10_000,
        ;
        let n: u64 = self.mantissa as u64 * scale as u64;
        let ghost e = self.exponent as nat;
        let ghost j = (149 - e) as nat;
        proof {
            use_type_invariant(&self);
            self.lemma_bounds();
            lemma2_to64();
            lemma_pow2_pos(j);
            lemma_pow2_pos(e);
            lemma_pow2_adds(e, j);
            lemma_pow2_pos(149);
            assert(self.magnitude() * scale == n * pow2(j)) by (nonlinear_arith)
                requires
                    self.magnitude() == self.mantissa * pow2(j),
                    n == self.mantissa * scale,
            ;
            lemma_half_even_scale(n as int, pow2(e) as int, pow2(j) as int);
            assert(n <= 0x100_0000 * 10_000) by (nonlinear_arith)
                requires
                    n == self.mantissa * scale,
                    self.mantissa <= 0x100_0000,
                    0 <= scale <= 10_000,
            ;
            lemma_half_even_exact(scale as int, one());
            assert((self.magnitude() * scale) * one() <= (scale * one()) * one())
                by (nonlinear_arith)
                requires
                    0 <= self.magnitude() <= one(),
                    0 < scale,
                    0 < one(),
            ;
            lemma_half_even_monotone(self.magnitude() * scale, one(), scale * one(), one());
        }
        if self.exponent >= 40 {
            proof {
                lemma_pow2_order(40, e);
                lemma_pow2_adds(32, 8);
                lemma_fundamental_div_mod_converse(n as int, pow2(e) as int, 0, n as int);
            }
            return 0;
        }
        let d: u64 = 1u64 << (self.exponent as u64);
        proof {
            lemma_pow2_order(e, 40);
            lemma_pow2_adds(32, 8);
            lemma_u64_shl_is_mul(1, self.exponent as u64);
        }
        let floor: u64 = n / d;
        let rest: u64 = n % d;
        if 2 * rest > d || (2 * rest == d && floor % 2 == 1) {
            (floor + 1) as u32
        } else {
            floor as u32
        }
    }
}

/// Encodings of what is not a number lie beyond 1.
proof fn lemma_bits_within_one(bits: u32)
    ensures
        bits_magnitude(bits) <= one() ==> bits_exponent(bits) <= 127,
{
    if bits_exponent(bits) > 127 {
        let k = (bits_exponent(bits) - 1) as nat;
        lemma2_to64();
        lemma_pow2_adds(23, 126);
        lemma_pow2_strictly_increases(126, k);
        lemma_mul_inequality(0x80_0000, 0x80_0000 + bits_fraction(bits), pow2(k) as int);
    }
}

/// A reading is determined by its value and its sign.
pub proof fn lemma_same_reading(a: Reading, b: Reading)
    requires
        a.wf(),
        b.wf(),
        a.magnitude() == b.magnitude(),
        a.is_negative() == b.is_negative(),
    ensures
        a == b,
{
    lemma_magnitude_order(a, b);
    lemma_magnitude_order(b, a);
}

/// Halving a value that is not the smallest loses nothing.
proof fn lemma_halving(m: int, k: nat)
    requires
        0 <= m <= 0x100_0000,
        0 < k,
    ensures
        quotient(m * pow2(k), 2 * one()) == m * pow2((k - 1) as nat),
{
    let j = (k - 1) as nat;
    lemma_pow2_unfold(k);
    lemma_pow2_pos(j);
    lemma_pow2_pos(149);
    let x = m * pow2(j);
    lemma_mul_inequality(0, m, pow2(j) as int);
    assert((m * pow2(k)) * one() == x * (2 * one())) by (nonlinear_arith)
        requires
            x == m * pow2(j),
            pow2(k) == 2 * pow2(j),
    ;
    lemma_mul_inequality(0, x, 2 * one());
    lemma_nearest_scale(x, 1, 2 * one());
    lemma_nearest_exact(m, j);
}

/// The unit axis runs from 0 to 1.
pub proof fn lemma_unit_axis_bounds(v: int)
    requires
        -one() <= v <= one(),
    ensures
        0 <= on_unit_axis(v) <= one(),
{
    lemma_pow2_pos(149);
    lemma_pow2_unfold(150);
    lemma2_to64();
    lemma_pow2_adds(23, 127);
    lemma_nearest_exact(0x80_0000, 127);
    lemma_nearest_monotone(v + one(), 1, 2 * one(), 1);
    let w = sum(v, one());
    lemma_mul_inequality(0, w, one());
    lemma_mul_inequality(w, 2 * one(), one());
    lemma_nearest_to_one(w * one(), 2 * one());
}

/// Rescaling stays between 0 and 1. Short of a full pull it gives nothing inside
/// the deadzone, and beyond it a quotient of at most 1.
pub proof fn lemma_rescaled(v: int, deadzone: int)
    requires
        0 <= v <= one(),
    ensures
        0 <= rescaled(v, deadzone) <= one(),
        effective_deadzone(deadzone) < v < one() ==> {
            let dz = effective_deadzone(deadzone);
            &&& 0 < difference(v, dz) <= difference(one(), dz)
            &&& rescaled(v, deadzone) == quotient(difference(v, dz), difference(one(), dz))
        },
{
    let dz = effective_deadzone(deadzone);
    lemma_pow2_pos(149);
    if dz < v < one() {
        let room = difference(one(), dz);
        let s = difference(v, dz);
        lemma2_to64();
        lemma_nearest_exact(1, 0);
        lemma_nearest_monotone(1, 1, v - dz, 1);
        lemma_nearest_monotone(v - dz, 1, one() - dz, 1);
        lemma_mul_inequality(0, s, one());
        lemma_mul_inequality(s, room, one());
        lemma_nearest_to_one(s * one(), room);
    }
}

proof fn lemma_magnitude_order(a: Reading, b: Reading)
    requires
        a.wf(),
        b.wf(),
    ensures
        a.exponent > b.exponent ==> a.magnitude() < b.magnitude(),
        a.exponent == b.exponent ==> (a.mantissa <= b.mantissa <==> a.magnitude()
            <= b.magnitude()),
{
    lemma2_to64();
    let ka = (149 - a.exponent) as nat;
    let kb = (149 - b.exponent) as nat;
    lemma_pow2_pos(ka);
    lemma_pow2_pos(kb);
    let (sa, sb) = (pow2(ka) as int, pow2(kb) as int);
    if a.exponent > b.exponent {
        lemma_pow2_unfold((ka + 1) as nat);
        lemma_pow2_order((ka + 1) as nat, kb);
        assert(a.mantissa * sa < b.mantissa * sb) by (nonlinear_arith)
            requires
                a.mantissa < 0x100_0000,
                b.mantissa >= 0x80_0000,
                0 < 2 * sa <= sb,
        ;
    } else if a.exponent == b.exponent {
        assert(a.mantissa <= b.mantissa <==> a.mantissa * sa <= b.mantissa * sa)
            by (nonlinear_arith)
            requires
                sa > 0,
        ;
    }
}

} // verus!
