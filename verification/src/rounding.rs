//! Floating-point rounding, stated over whole numbers.
//!
//! Every finite value of a binary format is a whole number of *units*, the
//! spacing of the smallest values the format has. A value is therefore modelled
//! as an `int` that counts units, and an arithmetic step is the exact rational
//! result rounded by [`nearest_in`]: to as many significant bits as the format
//! has, to the nearer neighbour, and to the even one on a tie.
//!
//! Readings are in single precision, with 24 bits and units of 2^-149: [`one`],
//! [`nearest`], and the steps that build on them. [`crate::double`] has the same
//! for double precision.
use vstd::arithmetic::div_mod::*;
use vstd::arithmetic::mul::*;
use vstd::arithmetic::power2::*;
use vstd::prelude::*;

verus! {

/// The value 1, in units.
pub open spec fn one() -> int {
    pow2(149) as int
}

/// `n / d` rounded to a whole number: to the nearer one, and to the even one
/// when two are equally near.
pub open spec fn half_even(n: int, d: int) -> int {
    let floor = n / d;
    let twice_rest = 2 * (n % d);
    if twice_rest < d {
        floor
    } else if twice_rest > d {
        floor + 1
    } else if floor % 2 == 0 {
        floor
    } else {
        floor + 1
    }
}

/// Whether multiples of 2^k units are the finest that hold `n / d` units in so
/// many bits. There is no multiple finer than one unit.
pub open spec fn on_grid(bits: nat, n: int, d: int, k: nat) -> bool {
    &&& n < pow2(bits + k) * d
    &&& k == 0 || n >= pow2((bits + k - 1) as nat) * d
}

/// The step, as a power of two, between the values of so many bits around `n / d`
/// units.
pub open spec fn grid(bits: nat, n: int, d: int) -> nat {
    choose|k: nat| on_grid(bits, n, d, k)
}

/// The number of units in the value of so many bits nearest to `n / d` units, for
/// `n` not negative and `d` positive.
pub open spec fn nearest_in(bits: nat, n: int, d: int) -> int {
    let step = pow2(grid(bits, n, d)) as int;
    half_even(n, step * d) * step
}

/// The single-precision value nearest to `n / d` units, for `n` not negative.
pub open spec fn nearest(n: int, d: int) -> int {
    nearest_in(24, n, d)
}

/// The single-precision value nearest to `n / d` units, for `n` of either sign.
pub open spec fn rounded(n: int, d: int) -> int {
    if n < 0 {
        -nearest(-n, d)
    } else {
        nearest(n, d)
    }
}

/// Single-precision `a + b`.
pub open spec fn sum(a: int, b: int) -> int {
    rounded(a + b, 1)
}

/// Single-precision `a - b`.
pub open spec fn difference(a: int, b: int) -> int {
    rounded(a - b, 1)
}

/// Single-precision `a / b`, for a positive `b`.
pub open spec fn quotient(a: int, b: int) -> int {
    rounded(a * one(), b)
}

/// `v` held between `low` and `high`.
pub open spec fn clamp(v: int, low: int, high: int) -> int {
    if v < low {
        low
    } else if v > high {
        high
    } else {
        v
    }
}

/// A value as a whole number of `scale`-ths: the nearest, and the even one when
/// two are equally near.
pub open spec fn decimal(units: int, scale: int) -> int {
    half_even(units * scale, one())
}

/// Multiplying numerator and denominator by the same number changes nothing.
pub proof fn lemma_half_even_scale(n: int, d: int, c: int)
    requires
        d > 0,
        c > 0,
    ensures
        half_even(n * c, d * c) == half_even(n, d),
{
    let f = n / d;
    let r = n % d;
    lemma_fundamental_div_mod(n, d);
    lemma_mod_bound(n, d);
    assert(n * c == f * (d * c) + r * c) by (nonlinear_arith)
        requires
            n == d * f + r,
    ;
    assert(0 <= r * c < d * c) by (nonlinear_arith)
        requires
            0 <= r < d,
            c > 0,
    ;
    lemma_fundamental_div_mod_converse(n * c, d * c, f, r * c);
    assert(2 * (r * c) < d * c <==> 2 * r < d) by (nonlinear_arith)
        requires
            c > 0,
    ;
    assert(2 * (r * c) > d * c <==> 2 * r > d) by (nonlinear_arith)
        requires
            c > 0,
    ;
}

/// Rounding keeps the order of two fractions.
pub proof fn lemma_half_even_monotone(n1: int, d1: int, n2: int, d2: int)
    requires
        d1 > 0,
        d2 > 0,
        n1 * d2 <= n2 * d1,
    ensures
        half_even(n1, d1) <= half_even(n2, d2),
{
    let (f1, r1) = (n1 / d1, n1 % d1);
    let (f2, r2) = (n2 / d2, n2 % d2);
    lemma_fundamental_div_mod(n1, d1);
    lemma_fundamental_div_mod(n2, d2);
    lemma_mod_bound(n1, d1);
    lemma_mod_bound(n2, d2);
    assert(f1 <= f2) by (nonlinear_arith)
        requires
            n1 == d1 * f1 + r1,
            n2 == d2 * f2 + r2,
            0 <= r1,
            r2 < d2,
            d1 > 0,
            d2 > 0,
            n1 * d2 <= n2 * d1,
    {
        if f1 >= f2 + 1 {
            assert(n1 * d2 >= d1 * f1 * d2);
            assert(d1 * d2 * f1 >= d1 * d2 * (f2 + 1));
            assert(n2 * d1 == d2 * f2 * d1 + r2 * d1);
            assert(r2 * d1 < d2 * d1);
        }
    }
    if f1 == f2 {
        assert(r1 * d2 <= r2 * d1) by (nonlinear_arith)
            requires
                n1 == d1 * f1 + r1,
                n2 == d2 * f2 + r2,
                f1 == f2,
                n1 * d2 <= n2 * d1,
        ;
        assert(2 * r1 > d1 ==> 2 * r2 > d2) by (nonlinear_arith)
            requires
                r1 * d2 <= r2 * d1,
                d1 > 0,
                d2 > 0,
        ;
        assert(2 * r1 >= d1 ==> 2 * r2 >= d2) by (nonlinear_arith)
            requires
                r1 * d2 <= r2 * d1,
                d1 > 0,
                d2 > 0,
        ;
    }
}

/// A whole number is its own rounding.
pub proof fn lemma_half_even_exact(f: int, d: int)
    requires
        d > 0,
    ensures
        half_even(f * d, d) == f,
{
    lemma_fundamental_div_mod_converse(f * d, d, f, 0);
}

/// At most one step fits a fraction.
pub proof fn lemma_grid(bits: nat, n: int, d: int, k: nat)
    requires
        bits > 0,
        d > 0,
        on_grid(bits, n, d, k),
    ensures
        grid(bits, n, d) == k,
        nearest_in(bits, n, d) == half_even(n, pow2(k) * d) * pow2(k),
{
    let g = grid(bits, n, d);
    assert(on_grid(bits, n, d, g));
    lemma_grid_order(bits, n, d, g, k);
    lemma_grid_order(bits, n, d, k, g);
}

proof fn lemma_grid_order(bits: nat, n: int, d: int, low: nat, high: nat)
    requires
        bits > 0,
        d > 0,
        on_grid(bits, n, d, low),
        on_grid(bits, n, d, high),
    ensures
        high <= low,
{
    if low < high {
        let next = (bits + high - 1) as nat;
        lemma_pow2_order(bits + low, next);
        lemma_mul_inequality(pow2(bits + low) as int, pow2(next) as int, d);
    }
}

/// Powers of two grow with their exponent.
pub proof fn lemma_pow2_order(a: nat, b: nat)
    requires
        a <= b,
    ensures
        0 < pow2(a) <= pow2(b),
{
    lemma_pow2_pos(a);
    if a < b {
        lemma_pow2_strictly_increases(a, b);
    }
}

/// Some step fits every fraction.
pub proof fn lemma_grid_exists(bits: nat, n: int, d: int)
    requires
        bits > 0,
        n >= 0,
        d > 0,
    ensures
        on_grid(bits, n, d, grid(bits, n, d)),
    decreases n,
{
    if n < pow2(bits) * d {
        assert(on_grid(bits, n, d, 0));
    } else {
        lemma_pow2_pos(bits);
        assert(n > 0) by (nonlinear_arith)
            requires
                n >= pow2(bits) * d,
                pow2(bits) > 0,
                d > 0,
        ;
        let half = n / 2;
        lemma_grid_exists(bits, half, d);
        let k = grid(bits, half, d);
        let next = (k + 1) as nat;
        let (top, bottom) = (pow2(bits + k) as int, pow2((bits + k - 1) as nat) as int);
        lemma_pow2_unfold(bits + next);
        lemma_pow2_unfold(bits + k);
        assert((bits + next - 1) as nat == bits + k);
        assert(n < (2 * top) * d) by (nonlinear_arith)
            requires
                n <= 2 * half + 1,
                half < top * d,
        ;
        if k > 0 {
            assert(n >= (2 * bottom) * d) by (nonlinear_arith)
                requires
                    n >= 2 * half,
                    half >= bottom * d,
            ;
        }
        assert(on_grid(bits, n, d, next));
    }
}

/// The nearest value depends on the fraction, not on how it is written.
pub proof fn lemma_nearest_in_scale(bits: nat, n: int, d: int, c: int)
    requires
        bits > 0,
        n >= 0,
        d > 0,
        c > 0,
    ensures
        nearest_in(bits, n * c, d * c) == nearest_in(bits, n, d),
{
    lemma_grid_exists(bits, n, d);
    let k = grid(bits, n, d);
    let top = pow2(bits + k) as int;
    let bottom = pow2((bits + k - 1) as nat) as int;
    let step = pow2(k) as int;
    assert(n * c < top * (d * c)) by (nonlinear_arith)
        requires
            n < top * d,
            c > 0,
    ;
    assert(n >= bottom * d ==> n * c >= bottom * (d * c)) by (nonlinear_arith)
        requires
            c > 0,
    ;
    assert(d * c > 0) by (nonlinear_arith)
        requires
            d > 0,
            c > 0,
    ;
    lemma_grid(bits, n * c, d * c, k);
    lemma_pow2_pos(k);
    assert(step * (d * c) == (step * d) * c) by (nonlinear_arith);
    assert(step * d > 0) by (nonlinear_arith)
        requires
            step > 0,
            d > 0,
    ;
    lemma_half_even_scale(n, step * d, c);
}

/// [`lemma_nearest_in_scale`] in single precision.
pub proof fn lemma_nearest_scale(n: int, d: int, c: int)
    requires
        n >= 0,
        d > 0,
        c > 0,
    ensures
        nearest(n * c, d * c) == nearest(n, d),
{
    lemma_nearest_in_scale(24, n, d, c);
}

/// Rounding to the nearest value keeps the order of two fractions.
pub proof fn lemma_nearest_in_monotone(bits: nat, n1: int, d1: int, n2: int, d2: int)
    requires
        bits > 0,
        n1 >= 0,
        n2 >= 0,
        d1 > 0,
        d2 > 0,
        n1 * d2 <= n2 * d1,
    ensures
        0 <= nearest_in(bits, n1, d1) <= nearest_in(bits, n2, d2),
{
    lemma_grid_exists(bits, n1, d1);
    lemma_grid_exists(bits, n2, d2);
    let k1 = grid(bits, n1, d1);
    let k2 = grid(bits, n2, d2);
    lemma_pow2_pos(k1);
    lemma_pow2_pos(k2);
    lemma_rounding_bounds(bits, n1, d1, k1);
    lemma_rounding_bounds(bits, n2, d2, k2);
    let s1 = pow2(k1) as int;
    let s2 = pow2(k2) as int;
    let h1 = half_even(n1, s1 * d1);
    let h2 = half_even(n2, s2 * d2);
    assert(0 <= h1 * s1) by (nonlinear_arith)
        requires
            0 <= h1,
            0 < s1,
    ;
    if k1 == k2 {
        assert(n1 * (s2 * d2) <= n2 * (s1 * d1)) by (nonlinear_arith)
            requires
                s1 == s2,
                s1 > 0,
                n1 * d2 <= n2 * d1,
        ;
        assert(s1 * d1 > 0 && s2 * d2 > 0) by (nonlinear_arith)
            requires
                s1 > 0,
                s2 > 0,
                d1 > 0,
                d2 > 0,
        ;
        lemma_half_even_monotone(n1, s1 * d1, n2, s2 * d2);
        lemma_mul_inequality(h1, h2, s1);
    } else if k1 < k2 {
        lemma_pow2_order((k1 + 1) as nat, k2);
        lemma_pow2_unfold((k1 + 1) as nat);
        lemma_pow2_unfold(bits);
        let full = pow2((bits - 1) as nat) as int;
        lemma_pow2_pos((bits - 1) as nat);
        assert(h1 * s1 <= h2 * s2) by (nonlinear_arith)
            requires
                h1 <= 2 * full,
                h2 >= full,
                full > 0,
                0 < 2 * s1 <= s2,
        {
            assert(h1 * s1 <= (2 * full) * s1);
            assert(full * (2 * s1) <= full * s2);
            assert(full * s2 <= h2 * s2);
        }
    } else {
        let next = (bits + k1 - 1) as nat;
        lemma_pow2_order(bits + k2, next);
        let top2 = pow2(bits + k2) as int;
        let bottom1 = pow2(next) as int;
        assert(false) by (nonlinear_arith)
            requires
                n1 >= bottom1 * d1,
                n2 < top2 * d2,
                0 < top2 <= bottom1,
                n1 * d2 <= n2 * d1,
                d1 > 0,
                d2 > 0,
        {
            assert(n1 * d2 >= (bottom1 * d1) * d2);
            assert(n2 * d1 < (top2 * d2) * d1);
            assert((top2 * d2) * d1 == top2 * (d1 * d2));
            assert((bottom1 * d1) * d2 == bottom1 * (d1 * d2));
            assert(d1 * d2 > 0);
            assert(top2 * (d1 * d2) <= bottom1 * (d1 * d2));
        }
    }
}

/// [`lemma_nearest_in_monotone`] in single precision.
pub proof fn lemma_nearest_monotone(n1: int, d1: int, n2: int, d2: int)
    requires
        n1 >= 0,
        n2 >= 0,
        d1 > 0,
        d2 > 0,
        n1 * d2 <= n2 * d1,
    ensures
        0 <= nearest(n1, d1) <= nearest(n2, d2),
{
    lemma_nearest_in_monotone(24, n1, d1, n2, d2);
}

/// On its grid a fraction rounds to at most so many bits, and to no fewer where
/// the grid is coarser than one unit.
pub proof fn lemma_rounding_bounds(bits: nat, n: int, d: int, k: nat)
    requires
        bits > 0,
        n >= 0,
        d > 0,
        on_grid(bits, n, d, k),
    ensures
        pow2(k) * d > 0,
        0 <= half_even(n, pow2(k) * d) <= pow2(bits),
        k > 0 ==> half_even(n, pow2(k) * d) >= pow2((bits - 1) as nat),
{
    lemma_pow2_pos(k);
    lemma_pow2_adds(bits, k);
    lemma_pow2_adds((bits - 1) as nat, k);
    let (top, bottom) = (pow2(bits) as int, pow2((bits - 1) as nat) as int);
    let step = pow2(k) as int;
    let d2 = step * d;
    assert(d2 > 0) by (nonlinear_arith)
        requires
            step > 0,
            d > 0,
            d2 == step * d,
    ;
    lemma_half_even_exact(0, d2);
    lemma_half_even_exact(top, d2);
    lemma_half_even_exact(bottom, d2);
    assert(0 * d2 <= n * d2) by (nonlinear_arith)
        requires
            n >= 0,
            d2 > 0,
    ;
    lemma_half_even_monotone(0 * d2, d2, n, d2);
    assert(n * d2 <= (top * d2) * d2) by (nonlinear_arith)
        requires
            n < (top * step) * d,
            d2 == step * d,
            d2 > 0,
    {
        assert((top * step) * d == top * d2);
    }
    lemma_half_even_monotone(n, d2, top * d2, d2);
    if k > 0 {
        assert((bottom * d2) * d2 <= n * d2) by (nonlinear_arith)
            requires
                n >= (bottom * step) * d,
                d2 == step * d,
                d2 > 0,
        {
            assert((bottom * step) * d == bottom * d2);
        }
        lemma_half_even_monotone(bottom * d2, d2, n, d2);
    }
}

/// A value of at most so many bits is its own rounding.
pub proof fn lemma_nearest_in_exact(bits: nat, m: int, k: nat)
    requires
        bits > 0,
        0 <= m <= pow2(bits),
    ensures
        nearest_in(bits, m * pow2(k), 1) == m * pow2(k),
    decreases m,
{
    lemma_pow2_unfold((k + 1) as nat);
    lemma_pow2_unfold(bits);
    lemma_pow2_pos((bits - 1) as nat);
    let half = pow2((bits - 1) as nat) as int;
    if m == pow2(bits) {
        assert(m * pow2(k) == half * pow2((k + 1) as nat)) by (nonlinear_arith)
            requires
                m == 2 * half,
                pow2((k + 1) as nat) == 2 * pow2(k),
        ;
        lemma_nearest_in_exact(bits, half, (k + 1) as nat);
    } else {
        let x = m * pow2(k);
        lemma_pow2_pos(k);
        assert(x >= 0) by (nonlinear_arith)
            requires
                x == m * pow2(k),
                m >= 0,
                pow2(k) > 0,
        ;
        lemma_grid_exists(bits, x, 1);
        let g = grid(bits, x, 1);
        lemma_pow2_adds(bits, k);
        if g > k {
            lemma_pow2_order(bits + k, (bits + g - 1) as nat);
            assert(x < pow2(bits + k)) by (nonlinear_arith)
                requires
                    x == m * pow2(k),
                    m < pow2(bits),
                    pow2(bits + k) == pow2(bits) * pow2(k),
                    pow2(k) > 0,
            ;
            assert(false);
        }
        let rest = (k - g) as nat;
        lemma_pow2_adds(g, rest);
        lemma_pow2_pos(g);
        let f = m * pow2(rest);
        assert(x == f * pow2(g)) by (nonlinear_arith)
            requires
                x == m * pow2(k),
                f == m * pow2(rest),
                pow2(k) == pow2(g) * pow2(rest),
        ;
        lemma_half_even_exact(f, pow2(g) as int);
    }
}

/// [`lemma_nearest_in_exact`] in single precision.
pub proof fn lemma_nearest_exact(m: int, k: nat)
    requires
        0 <= m <= 0x100_0000,
    ensures
        nearest(m * pow2(k), 1) == m * pow2(k),
{
    lemma2_to64();
    lemma_nearest_in_exact(24, m, k);
}

/// A change of less than a quarter of a step is lost.
pub proof fn lemma_nearest_absorbs(m: int, k: nat, t: int)
    requires
        0x80_0000 <= m < 0x100_0000,
        -pow2(k) < 4 * t < pow2(k),
    ensures
        nearest(m * pow2(k) + t, 1) == m * pow2(k),
{
    lemma2_to64();
    lemma_pow2_adds(24, k);
    lemma_pow2_adds(23, k);
    let step = pow2(k) as int;
    let x = m * step + t;
    if k == 0 {
        assert(t == 0);
        lemma_nearest_exact(m, 0);
    } else if x >= 0x80_0000 * step {
        assert(x < 0x100_0000 * step) by (nonlinear_arith)
            requires
                x == m * step + t,
                m <= 0xff_ffff,
                4 * t < step,
                step > 0,
        ;
        lemma_grid(24, x, 1, k);
        lemma_half_even_near(m, step, t);
    } else {
        let j = (k - 1) as nat;
        let fine = pow2(j) as int;
        lemma_pow2_unfold(k);
        lemma_pow2_adds(24, j);
        lemma_pow2_adds(23, j);
        assert(m == 0x80_0000) by (nonlinear_arith)
            requires
                m >= 0x80_0000,
                m * step + t < 0x80_0000 * step,
                -step < 4 * t,
                step > 0,
        {
            if m >= 0x80_0001 {
                assert(m * step >= 0x80_0000 * step + step);
            }
        }
        assert(x >= 0x80_0000 * fine);
        lemma_grid(24, x, 1, j);
        lemma_half_even_near(0x100_0000, fine, t);
    }
}

proof fn lemma_half_even_near(f: int, d: int, t: int)
    requires
        d > 0,
        -d < 2 * t < d,
    ensures
        half_even(f * d + t, d) == f,
{
    if t >= 0 {
        lemma_fundamental_div_mod_converse(f * d + t, d, f, t);
    } else {
        assert(f * d + t == (f - 1) * d + (d + t)) by (nonlinear_arith);
        lemma_fundamental_div_mod_converse(f * d + t, d, f - 1, d + t);
    }
}

/// The nearest value to a fraction of at most 1 is at most 1, to one of at
/// least 1 at least 1, and to 1 it is 1.
pub proof fn lemma_nearest_to_one(n: int, d: int)
    requires
        n >= 0,
        d > 0,
    ensures
        n <= d * one() ==> 0 <= nearest(n, d) <= one(),
        n >= d * one() ==> nearest(n, d) >= one(),
        n == d * one() ==> nearest(n, d) == one(),
        nearest(one(), 1) == one(),
{
    lemma_pow2_pos(149);
    lemma2_to64();
    lemma_pow2_adds(23, 126);
    lemma_nearest_exact(0x80_0000, 126);
    assert(n * 1 == n && one() * d == d * one()) by (nonlinear_arith);
    if n <= d * one() {
        lemma_nearest_monotone(n, d, one(), 1);
    }
    if n >= d * one() {
        lemma_nearest_monotone(one(), 1, n, d);
    }
}

/// Rounding to a whole number is off by a half at most.
pub proof fn lemma_half_even_error(n: int, d: int)
    requires
        d > 0,
    ensures
        -d <= 2 * (half_even(n, d) * d - n) <= d,
        2 * (half_even(n, d) * d - n) == d || 2 * (half_even(n, d) * d - n) == -d ==> half_even(
            n,
            d,
        ) % 2 == 0,
{
    let (f, r) = (n / d, n % d);
    lemma_fundamental_div_mod(n, d);
    lemma_mod_bound(n, d);
    assert(f * d == n - r) by (nonlinear_arith)
        requires
            n == d * f + r,
    ;
    assert((f + 1) * d == f * d + d) by (nonlinear_arith);
}

/// Above the smallest values that have them all, rounding to so many bits is off by one
/// part in as many powers of two at most.
pub proof fn lemma_nearest_in_error(bits: nat, n: int, d: int)
    requires
        bits > 0,
        d > 0,
        n >= pow2((bits - 1) as nat) * d,
    ensures
        -n <= (nearest_in(bits, n, d) * d - n) * pow2(bits) <= n,
{
    let half = pow2((bits - 1) as nat) as int;
    lemma_pow2_pos((bits - 1) as nat);
    lemma_pow2_unfold(bits);
    lemma_mul_inequality(0, half, d);
    lemma_grid_exists(bits, n, d);
    let k = grid(bits, n, d);
    let step = pow2(k) as int;
    lemma_pow2_pos(k);
    lemma2_to64();
    lemma_pow2_adds((bits - 1) as nat, k);
    assert((half * step) * d <= n) by {
        if k == 0 {
            lemma_mul_basics(half);
        }
    }
    let h = half_even(n, step * d);
    assert(step * d > 0) by (nonlinear_arith)
        requires
            step > 0,
            d > 0,
    ;
    lemma_half_even_error(n, step * d);
    let e = (h * step) * d - n;
    assert(h * (step * d) == (h * step) * d) by (nonlinear_arith);
    assert(-n <= e * (2 * half) <= n) by (nonlinear_arith)
        requires
            -(step * d) <= 2 * e <= step * d,
            (half * step) * d <= n,
            half > 0,
    {
        assert(e * (2 * half) == (2 * e) * half);
        assert((2 * e) * half <= (step * d) * half);
        assert((2 * e) * half >= -(step * d) * half);
        assert((step * d) * half == (half * step) * d);
    }
}

/// Up to a power of two, a value is off by a 2^24th of that at most when it is
/// rounded to the nearest.
pub proof fn lemma_nearest_error_below(n: int, d: int, top: nat)
    requires
        0 <= n <= d * pow2(top),
        d > 0,
        top >= 23,
    ensures
        -(d * pow2(top)) <= (nearest(n, d) * d - n) * 0x100_0000 <= d * pow2(top),
{
    lemma2_to64();
    lemma_grid_exists(24, n, d);
    let k = grid(24, n, d);
    let limit = pow2(top) as int;
    lemma_pow2_pos(top);
    if k > top - 23 {
        lemma_pow2_order((top + 1) as nat, (23 + k) as nat);
        lemma_pow2_unfold((top + 1) as nat);
        let bottom = pow2((23 + k) as nat) as int;
        assert(false) by (nonlinear_arith)
            requires
                n >= bottom * d,
                bottom >= 2 * limit,
                n <= d * limit,
                limit > 0,
                d > 0,
        ;
    }
    lemma_pow2_order(k, (top - 23) as nat);
    lemma_pow2_adds(23, (top - 23) as nat);
    let step = pow2(k) as int;
    let h = half_even(n, step * d);
    assert(step * d > 0) by (nonlinear_arith)
        requires
            step > 0,
            d > 0,
    ;
    lemma_half_even_error(n, step * d);
    assert(h * (step * d) == (h * step) * d) by (nonlinear_arith);
    assert(0x80_0000 * (step * d) <= d * limit) by (nonlinear_arith)
        requires
            0x80_0000 * step <= limit,
            d > 0,
    ;
}

/// Up to 1, a value is off by a 2^24th of 1 at most when it is rounded to the
/// nearest.
pub proof fn lemma_nearest_error(n: int, d: int)
    requires
        0 <= n <= d * one(),
        d > 0,
    ensures
        -(d * one()) <= (nearest(n, d) * d - n) * 0x100_0000 <= d * one(),
{
    lemma_nearest_error_below(n, d, 149);
}

/// Dividing whole numbers is dividing their values, and keeps the sign.
pub proof fn lemma_quotient_of_whole(p: int, q: int)
    requires
        q > 0,
    ensures
        quotient(p * one(), q * one()) == rounded(p * one(), q),
        p >= 0 ==> quotient(p * one(), q * one()) >= 0,
        p <= 0 ==> quotient(p * one(), q * one()) <= 0,
{
    lemma_pow2_pos(149);
    let n = if p < 0 {
        -p
    } else {
        p
    };
    lemma_mul_inequality(0, n, one());
    lemma_nearest_scale(n * one(), q, one());
    lemma_nearest_exact(0, 0);
    lemma_mul_basics(pow2(0) as int);
    lemma_mul_basics(q);
    lemma_nearest_monotone(0, 1, n * one(), q);
    if p == 0 {
        lemma_nearest_monotone(n * one(), q, 0, 1);
    }
    assert((p * one()) * one() < 0 <==> p * one() < 0) by (nonlinear_arith)
        requires
            one() > 0,
    ;
    assert(-((p * one()) * one()) == ((-p) * one()) * one()) by (nonlinear_arith);
    assert(-(p * one()) == (-p) * one()) by (nonlinear_arith);
    assert(p * one() < 0 <==> p < 0) by (nonlinear_arith)
        requires
            one() > 0,
    ;
}

/// A rounded value is its own rounding.
pub proof fn lemma_nearest_idempotent(n: int, d: int)
    requires
        n >= 0,
        d > 0,
    ensures
        nearest(nearest(n, d), 1) == nearest(n, d),
{
    lemma2_to64();
    lemma_grid_exists(24, n, d);
    let k = grid(24, n, d);
    lemma_rounding_bounds(24, n, d, k);
    lemma_nearest_exact(half_even(n, pow2(k) * d), k);
}

/// A larger dividend never gives a smaller quotient.
pub proof fn lemma_quotient_monotone(a1: int, a2: int, b: int)
    requires
        a1 <= a2,
        b > 0,
    ensures
        quotient(a1, b) <= quotient(a2, b),
{
    lemma_pow2_pos(149);
    let (n1, n2) = (a1 * one(), a2 * one());
    lemma_mul_inequality(a1, a2, one());
    lemma_mul_basics(b);
    if n1 >= 0 {
        lemma_mul_inequality(n1, n2, b);
        lemma_nearest_monotone(n1, b, n2, b);
    } else {
        lemma_nearest_exact(0, 0);
        lemma_mul_basics(pow2(0) as int);
        if n2 >= 0 {
            lemma_mul_inequality(0, n2, b);
            lemma_nearest_monotone(0, 1, n2, b);
            lemma_nearest_monotone(0, 1, -n1, b);
        } else {
            lemma_mul_inequality(-n2, -n1, b);
            lemma_nearest_monotone(-n2, b, -n1, b);
        }
    }
}

} // verus!
