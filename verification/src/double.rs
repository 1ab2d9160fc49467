//! Double-precision arithmetic on numbers that are not negative.
//!
//! A value is modelled as a whole number of units of 2^-1074, as
//! [`crate::rounding`] explains.
use vstd::arithmetic::div_mod::*;
use vstd::arithmetic::mul::*;
use vstd::arithmetic::power2::*;
use vstd::prelude::*;

use crate::rounding::{
    half_even, lemma_grid, lemma_half_even_scale, lemma_nearest_in_exact,
    lemma_nearest_in_monotone, lemma_nearest_in_scale, lemma_pow2_order, lemma_rounding_bounds,
    nearest_in,
};

pub mod laws;

verus! {

/// The value 1, in units.
pub open spec fn double_one() -> int {
    pow2(1074) as int
}

/// The double-precision value nearest to `n / d` units.
pub open spec fn nearest_double(n: int, d: int) -> int {
    nearest_in(53, n, d)
}

/// A whole number in double precision.
pub open spec fn whole(n: int) -> int {
    nearest_double(n * double_one(), 1)
}

/// Double-precision `a + b`.
pub open spec fn double_sum(a: int, b: int) -> int {
    nearest_double(a + b, 1)
}

/// Double-precision `a / b`.
pub open spec fn double_quotient(a: int, b: int) -> int {
    nearest_double(a * double_one(), b)
}

/// The whole number nearest to a value, and the larger one when two are equally
/// near.
pub open spec fn half_up(units: int) -> int {
    (2 * units + double_one()) / (2 * double_one())
}

/// A span of time in seconds: the whole ones, plus what is left over by the
/// nanoseconds in one.
pub open spec fn seconds(nanos: int) -> int {
    double_sum(
        whole(nanos / 1_000_000_000),
        double_quotient(whole(nanos % 1_000_000_000), whole(1_000_000_000)),
    )
}

/// So many per second, in whole numbers.
pub open spec fn per_second(count: int, nanos: int) -> int {
    half_up(double_quotient(whole(count), seconds(nanos)))
}

/// A whole number of at most 53 bits is exact.
proof fn lemma_whole(n: int)
    requires
        0 <= n <= 0x20_0000_0000_0000,
    ensures
        whole(n) == n * double_one(),
{
    lemma_bits();
    lemma_nearest_in_exact(53, n, 1074);
}

proof fn lemma_bits()
    ensures
        pow2(53) == 0x20_0000_0000_0000,
        pow2(52) == 0x10_0000_0000_0000,
        double_one() > 0,
{
    lemma2_to64();
    lemma_pow2_adds(32, 20);
    lemma_pow2_adds(32, 21);
    lemma_pow2_pos(1074);
}

/// Dividing whole numbers is dividing their values.
proof fn lemma_ratio(p: int, q: int)
    requires
        0 <= p <= 0x20_0000_0000_0000,
        0 < q <= 0x20_0000_0000_0000,
    ensures
        double_quotient(whole(p), whole(q)) == nearest_double(p * double_one(), q),
{
    lemma_bits();
    lemma_whole(p);
    lemma_whole(q);
    lemma_mul_inequality(0, p, double_one());
    lemma_nearest_in_scale(53, p * double_one(), q, double_one());
}

/// Rounds `p / q / 2^e` to double precision, as `m / 2^f`.
fn round(p0: u128, q0: u128, e0: u32) -> (r: (u64, u32))
    requires
        0 < p0 <= 0x40_0000_0000_0000_0000_0000_0000_0000,
        0 < q0 <= 0x20_0000_0000_0000,
        e0 <= 82,
        p0 <= 0x100_0000_0000 * q0 * pow2(e0 as nat),
    ensures
        r.1 <= 1074,
        0x10_0000_0000_0000 <= r.0 <= 0x20_0000_0000_0000,
        r.0 * pow2((1074 - r.1) as nat) == nearest_double(
            p0 * pow2((1074 - e0) as nat),
            q0 as int,
        ),
        r.1 > e0 ==> p0 * pow2((r.1 - e0) as nat) < 0x20_0000_0000_0000 * q0,
{
    let mut p: u128 = p0;
    let mut q: u128 = q0;
    let mut e: u32 = e0;
    let ghost target = nearest_double(p0 * pow2((1074 - e0) as nat), q0 as int);
    while p >= 0x20_0000_0000_0000 * q
        invariant
            0 < q <= 0x200_0000_0000_0000_0000,
            p == p0,
            0 < p0 <= 0x40_0000_0000_0000_0000_0000_0000_0000,
            e <= e0 <= 82,
            q >= q0,
            e < e0 || q == q0,
            e < e0 ==> p >= 0x10_0000_0000_0000 * q,
            p <= 0x100_0000_0000 * q * pow2(e as nat),
            nearest_double(p * pow2((1074 - e) as nat), q as int) == target,
        decreases e,
    {
        proof {
            lemma2_to64();
            assert(e > 0) by {
                if e == 0 {
                    assert(0x100_0000_0000 * q * pow2(e as nat) == 0x100_0000_0000 * q)
                        by (nonlinear_arith)
                        requires
                            pow2(e as nat) == 1,
                    ;
                }
            }
            let k = (1074 - e) as nat;
            lemma_pow2_unfold((k + 1) as nat);
            lemma_pow2_unfold(e as nat);
            lemma_pow2_pos(k);
            assert(p * pow2((k + 1) as nat) == (p * pow2(k)) * 2) by (nonlinear_arith)
                requires
                    pow2((k + 1) as nat) == 2 * pow2(k),
            ;
            lemma_mul_inequality(0, p as int, pow2(k) as int);
            lemma_nearest_in_scale(53, p * pow2(k), q as int, 2);
            assert(0x100_0000_0000 * q * pow2(e as nat) == 0x100_0000_0000 * (2 * q) * pow2(
                (e - 1) as nat,
            )) by (nonlinear_arith)
                requires
                    pow2(e as nat) == 2 * pow2((e - 1) as nat),
            ;
        }
        q = q * 2;
        e = e - 1;
    }
    let ghost started = e;
    proof {
        lemma2_to64();
        lemma_mul_basics(p0 as int);
    }
    while p < 0x10_0000_0000_0000 * q && e < 1074
        invariant
            0 < q <= 0x200_0000_0000_0000_0000,
            0 < p < 0x20_0000_0000_0000 * q,
            started <= e <= 1074,
            started <= e0,
            started < e0 ==> e == started,
            started < e0 ==> p >= 0x10_0000_0000_0000 * q,
            started == e0 ==> q == q0,
            p == p0 * pow2((e - started) as nat),
            nearest_double(p * pow2((1074 - e) as nat), q as int) == target,
        decreases 1074 - e,
    {
        proof {
            let k = (1074 - e) as nat;
            lemma_pow2_unfold(k);
            assert(p * pow2(k) == (2 * p) * pow2((k - 1) as nat)) by (nonlinear_arith)
                requires
                    pow2(k) == 2 * pow2((k - 1) as nat),
            ;
            let j = (e + 1 - started) as nat;
            lemma_pow2_unfold(j);
            assert(2 * p == p0 * pow2(j)) by (nonlinear_arith)
                requires
                    p == p0 * pow2((j - 1) as nat),
                    pow2(j) == 2 * pow2((j - 1) as nat),
            ;
        }
        p = p * 2;
        e = e + 1;
    }
    proof {
        lemma_bits();
        assert(e < 1074) by {
            let j = (e - started) as nat;
            lemma_mul_inequality(1, p0 as int, pow2(j) as int);
            lemma_pow2_adds(64, 64);
            lemma2_to64();
            if e == 1074 {
                lemma_pow2_order(128, j);
            }
        }
        let k = (1074 - e) as nat;
        let s = pow2(k) as int;
        lemma_pow2_pos(k);
        lemma_pow2_adds(53, k);
        lemma_pow2_adds(52, k);
        assert(p * s < (0x20_0000_0000_0000 * s) * q) by (nonlinear_arith)
            requires
                p < 0x20_0000_0000_0000 * q,
                s > 0,
        ;
        if k > 0 {
            assert(p * s >= (0x10_0000_0000_0000 * s) * q) by (nonlinear_arith)
                requires
                    p >= 0x10_0000_0000_0000 * q,
                    s > 0,
            ;
        }
        lemma_mul_inequality(0, p as int, s);
        lemma_grid(53, p * s, q as int, k);
        assert(s * q == q * s) by (nonlinear_arith);
        lemma_half_even_scale(p as int, q as int, s);
        lemma_rounding_bounds(53, p * s, q as int, k);
    }
    let floor: u128 = p / q;
    let rest: u128 = p % q;
    let up: bool = 2 * rest > q || (2 * rest == q && floor % 2 == 1);
    assert(floor < 0x20_0000_0000_0000) by (nonlinear_arith)
        requires
            floor == p / q,
            p < 0x20_0000_0000_0000 * q,
            q > 0,
    ;
    let m: u64 = if up {
        floor as u64 + 1
    } else {
        floor as u64
    };
    assert(m == half_even(p as int, q as int));
    (m, e)
}

fn power_of_two(e: u32) -> (r: u128)
    requires
        e <= 126,
    ensures
        r == pow2(e as nat),
        r <= 0x4000_0000_0000_0000_0000_0000_0000_0000,
{
    let mut r: u128 = 1;
    proof {
        lemma2_to64();
        lemma_pow2_adds(64, 62);
        lemma_pow2_adds(32, 30);
    }
    for i in 0..e
        invariant
            e <= 126,
            r == pow2(i as nat),
            pow2(126) == 0x4000_0000_0000_0000_0000_0000_0000_0000,
    {
        proof {
            lemma_pow2_unfold((i + 1) as nat);
            lemma_pow2_order((i + 1) as nat, 126);
        }
        r = r * 2;
    }
    proof {
        lemma_pow2_order(e as nat, 126);
    }
    r
}

/// Less than a second, in seconds, as `m / 2^e`.
fn fraction(left: u128) -> (r: (u64, u32))
    requires
        left < 1_000_000_000,
    ensures
        r.1 <= 82,
        r.0 <= pow2(r.1 as nat),
        r.0 * pow2((1074 - r.1) as nat) == nearest_double(left * double_one(), 1_000_000_000),
{
    proof {
        lemma_bits();
        lemma2_to64();
    }
    if left == 0 {
        proof {
            lemma_mul_basics(double_one());
            lemma_nearest_in_exact(53, 0, 0);
            lemma_nearest_in_scale(53, 0, 1, 1_000_000_000);
        }
        return (0, 0);
    }
    let (m, e) = round(left, 1_000_000_000, 0);
    proof {
        if e > 82 {
            lemma_pow2_adds(53, 30);
            lemma_pow2_order(83, e as nat);
            lemma_mul_inequality(1, left as int, pow2(e as nat) as int);
            assert(false);
        }
        let rest = pow2((1074 - e) as nat) as int;
        lemma_pow2_pos((1074 - e) as nat);
        lemma_pow2_adds(e as nat, (1074 - e) as nat);
        lemma_whole(1);
        lemma_mul_inequality(0, left as int, double_one());
        lemma_mul_inequality(left as int, 1_000_000_000, double_one());
        lemma_nearest_in_monotone(53, left * double_one(), 1_000_000_000, double_one(), 1);
        assert(m <= pow2(e as nat)) by (nonlinear_arith)
            requires
                m * rest <= pow2(e as nat) * rest,
                rest > 0,
        ;
    }
    (m, e)
}

/// A span of time in seconds, as `n / 2^f`.
fn span(nanos: u128) -> (r: (u64, u32))
    requires
        1_000_000_000 <= nanos < 1_000_000_000 * 0x4_0000_0000,
    ensures
        0x10_0000_0000_0000 <= r.0 <= 0x20_0000_0000_0000,
        r.1 <= 82,
        r.0 * pow2((1074 - r.1) as nat) == seconds(nanos as int),
{
    let all: u128 = nanos / 1_000_000_000;
    let left: u128 = nanos % 1_000_000_000;
    let (m, e) = fraction(left);
    let scale: u128 = power_of_two(e);
    let ghost rest = pow2((1074 - e) as nat) as int;
    proof {
        lemma_bits();
        lemma2_to64();
        lemma_pow2_order(e as nat, 82);
        lemma_pow2_adds(52, 30);
        lemma_pow2_adds(e as nat, (1074 - e) as nat);
        lemma_whole(all as int);
        lemma_ratio(left as int, 1_000_000_000);
        assert(all * scale <= 0x4_0000_0000 * 0x4_0000_0000_0000_0000_0000) by (nonlinear_arith)
            requires
                0 <= all <= 0x4_0000_0000,
                0 <= scale <= 0x4_0000_0000_0000_0000_0000,
        ;
        assert(scale <= all * scale) by (nonlinear_arith)
            requires
                1 <= all,
                0 <= scale,
        ;
        assert(all * scale + m <= 0x100_0000_0000 * 1 * scale) by (nonlinear_arith)
            requires
                all < 0x4_0000_0000,
                0 <= m <= scale,
        ;
    }
    let total: u128 = all * scale + m as u128;
    let (n, f) = round(total, 1, e);
    proof {
        if f > e {
            let j = (f - e) as nat;
            lemma_pow2_adds(e as nat, j);
            lemma_pow2_pos(j);
            lemma_mul_inequality(scale as int, total as int, pow2(j) as int);
            if f > 82 {
                lemma_pow2_order(53, f as nat);
            }
        }
        assert(total * rest == all * double_one() + m * rest) by (nonlinear_arith)
            requires
                total == all * scale + m,
                double_one() == scale * rest,
        ;
    }
    (n, f)
}

/// A span of time is no shorter in seconds than the whole seconds it lasts.
proof fn lemma_at_least(nanos: int, least: int)
    requires
        0 <= least <= 0x20_0000_0000_0000,
        1_000_000_000 * least <= nanos,
    ensures
        least * double_one() <= seconds(nanos),
{
    let one = double_one();
    let (all, left) = (nanos / 1_000_000_000, nanos % 1_000_000_000);
    lemma_bits();
    lemma_whole(least);
    lemma_ratio(left, 1_000_000_000);
    lemma_mul_inequality(0, left, one);
    lemma_nearest_in_monotone(53, 0, 1, left * one, 1_000_000_000);
    lemma_mul_inequality(0, least, one);
    lemma_mul_inequality(least, all, one);
    lemma_nearest_in_monotone(53, least * one, 1, all * one, 1);
    lemma_nearest_in_monotone(
        53,
        least * one,
        1,
        whole(all) + double_quotient(whole(left), whole(1_000_000_000)),
        1,
    );
}

/// Over 2^34 seconds or more, no count comes to a half per second.
proof fn lemma_too_long(count: int, nanos: int)
    requires
        0 < count <= 0xffff_ffff,
        nanos >= 1_000_000_000 * 0x4_0000_0000,
    ensures
        per_second(count, nanos) == 0,
{
    let (one, spent) = (double_one(), seconds(nanos));
    lemma_bits();
    lemma_whole(count);
    lemma_at_least(nanos, 0x4_0000_0000);
    let quarter = pow2(1072) as int;
    lemma_pow2_adds(2, 1072);
    lemma_pow2_pos(1072);
    lemma2_to64();
    lemma_nearest_in_exact(53, 1, 1072);
    let n = (count * one) * one;
    assert(0 <= n && n * 1 <= quarter * spent) by (nonlinear_arith)
        requires
            n == (count * one) * one,
            0 < count <= 0xffff_ffff,
            one == 4 * quarter,
            quarter > 0,
            spent >= 0x4_0000_0000 * one,
    {
        assert(n == count * (one * one));
        assert(one * one > 0);
        assert(count * (one * one) <= 0x1_0000_0000 * (one * one));
        assert(quarter * spent >= quarter * (0x4_0000_0000 * one));
        assert(quarter * (0x4_0000_0000 * one) == 0x1_0000_0000 * ((4 * quarter) * one));
    }
    lemma_nearest_in_monotone(53, n, spent, quarter, 1);
    let v = double_quotient(whole(count), spent);
    assert(0 <= v <= quarter);
    lemma_fundamental_div_mod_converse(2 * v + one, 2 * one, 0, 2 * v + one);
}

/// Over a second or more, there are no more per second than there are in all.
pub proof fn lemma_no_more(count: int, nanos: int)
    requires
        0 < count <= 0xffff_ffff,
        1_000_000_000 <= nanos,
    ensures
        0 <= per_second(count, nanos) <= count,
{
    let (one, spent) = (double_one(), seconds(nanos));
    lemma_bits();
    lemma_whole(count);
    lemma_at_least(nanos, 1);
    let whole_count = count * one;
    lemma_mul_inequality(0, count, one);
    assert(0 <= whole_count * one && (whole_count * one) * 1 <= whole_count * spent)
        by (nonlinear_arith)
        requires
            0 <= whole_count,
            0 < one <= spent,
    ;
    lemma_nearest_in_monotone(53, whole_count * one, spent, whole_count, 1);
    let v = double_quotient(whole(count), spent);
    assert(0 <= v <= whole_count);
    lemma_div_is_ordered(2 * v + one, 2 * whole_count + one, 2 * one);
    lemma_div_pos_is_pos(2 * v + one, 2 * one);
    assert(2 * whole_count + one == count * (2 * one) + one) by (nonlinear_arith)
        requires
            whole_count == count * one,
    ;
    lemma_fundamental_div_mod_converse(2 * whole_count + one, 2 * one, count, one);
}

/// A value `m / 2^e`, rounded to a whole number.
proof fn lemma_half_up(m: int, e: nat)
    requires
        0 <= m,
        e <= 1074,
    ensures
        half_up(m * pow2((1074 - e) as nat)) == (2 * m + pow2(e)) / (2 * pow2(e) as int),
{
    let (scale, rest) = (pow2(e) as int, pow2((1074 - e) as nat) as int);
    lemma_pow2_adds(e, (1074 - e) as nat);
    lemma_pow2_pos(e);
    lemma_pow2_pos((1074 - e) as nat);
    let (x, y) = (2 * m + scale, 2 * scale);
    lemma_fundamental_div_mod(x, y);
    lemma_mod_bound(x, y);
    let (q, r) = (x / y, x % y);
    assert(2 * (m * rest) + scale * rest == q * (y * rest) + r * rest && 0 <= r * rest < y * rest
        && y * rest == 2 * (scale * rest)) by (nonlinear_arith)
        requires
            x == 2 * m + scale,
            y == 2 * scale,
            x == y * q + r,
            0 <= r < y,
            rest > 0,
    {
        assert(x * rest == (y * q) * rest + r * rest);
        assert(x * rest == 2 * (m * rest) + scale * rest);
    }
    lemma_fundamental_div_mod_converse(
        2 * (m * rest) + scale * rest,
        2 * (scale * rest),
        q,
        r * rest,
    );
}

/// So many per second, in whole numbers, over a second or more.
pub fn whole_per_second(count: u32, nanos: u128) -> (r: u32)
    requires
        0 < count,
        1_000_000_000 <= nanos,
    ensures
        r == per_second(count as int, nanos as int),
        r <= count,
{
    proof {
        lemma_no_more(count as int, nanos as int);
    }
    if nanos >= 1_000_000_000 * 0x4_0000_0000 {
        proof {
            lemma_too_long(count as int, nanos as int);
        }
        return 0;
    }
    let (n, f) = span(nanos);
    let scale: u128 = power_of_two(f);
    let ghost (one, spent) = (double_one(), seconds(nanos as int));
    let ghost rest = pow2((1074 - f) as nat) as int;
    proof {
        lemma_bits();
        lemma2_to64();
        lemma_pow2_order(f as nat, 82);
        lemma_pow2_adds(52, 30);
        lemma_pow2_adds(f as nat, (1074 - f) as nat);
        lemma_pow2_pos((1074 - f) as nat);
        lemma_at_least(nanos as int, 1);
        assert(scale <= n) by (nonlinear_arith)
            requires
                scale * rest <= n * rest,
                rest > 0,
        ;
        assert(0 < count * scale <= 0xffff_ffff * 0x4_0000_0000_0000_0000_0000)
            by (nonlinear_arith)
            requires
                0 < count <= 0xffff_ffff,
                0 < scale <= 0x4_0000_0000_0000_0000_0000,
        ;
        assert(count * scale <= 0x100_0000_0000 * n) by (nonlinear_arith)
            requires
                0 < count <= 0xffff_ffff,
                0 < scale <= n,
        ;
        assert(0x100_0000_0000 * n * pow2(0) == 0x100_0000_0000 * n);
    }
    let (m, e) = round(count as u128 * scale, n as u128, 0);
    proof {
        let p = count * scale;
        // The same quotient, written over the units of the span.
        lemma_whole(count as int);
        lemma_mul_inequality(0, p, one);
        lemma_nearest_in_scale(53, p * one, n as int, rest);
        assert((p * one) * rest == (count * one) * one) by (nonlinear_arith)
            requires
                p == count * scale,
                one == scale * rest,
        ;
        lemma_half_up(m as int, e as nat);
        if e > 105 {
            lemma_pow2_order(106, e as nat);
            lemma_pow2_adds(53, 53);
            lemma_mul_inequality(1, p, pow2(e as nat) as int);
            assert(false);
        }
    }
    let unit: u128 = power_of_two(e);
    proof {
        lemma_pow2_order(e as nat, 105);
        lemma_pow2_adds(53, 52);
    }
    ((2 * m as u128 + unit) / (2 * unit)) as u32
}

} // verus!
