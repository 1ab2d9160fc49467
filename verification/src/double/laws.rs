//! How close a rate is to the count by the time.
use vstd::arithmetic::div_mod::*;
use vstd::arithmetic::mul::*;
use vstd::arithmetic::power2::*;
use vstd::prelude::*;

use crate::double::{
    double_one, double_quotient, double_sum, half_up, lemma_bits, lemma_ratio, lemma_too_long,
    lemma_whole, nearest_double, per_second, seconds, whole,
};
use crate::rounding::{
    grid, half_even, lemma_half_even_exact, lemma_nearest_in_error, lemma_pow2_order,
};

verus! {

proof fn lemma_one()
    ensures
        double_one() >= 0x10_0000_0000_0000 * 0x40_0000_0000,
        double_one() >= pow2(52) * 1_000_000_000,
        pow2(52) == 0x10_0000_0000_0000,
        pow2(53) == 0x20_0000_0000_0000,
{
    lemma_bits();
    lemma2_to64();
    lemma_pow2_adds(52, 38);
    lemma_pow2_adds(32, 6);
    lemma_pow2_order(90, 1074);
}

proof fn lemma_nothing(d: int)
    requires
        d > 0,
    ensures
        nearest_double(0, d) == 0,
{
    let step = pow2(grid(53, 0, d)) as int;
    lemma_pow2_pos(grid(53, 0, d));
    assert(step * d > 0) by (nonlinear_arith)
        requires
            step > 0,
            d > 0,
    ;
    lemma_half_even_exact(0, step * d);
    lemma_mul_basics(step * d);
    lemma_mul_basics(step);
    assert(half_even(0, step * d) == 0);
}

/// A span in seconds is off by three parts in 2^53 at most.
proof fn lemma_seconds(nanos: int)
    requires
        1_000_000_000 <= nanos < 1_000_000_000 * 0x4_0000_0000,
    ensures
        -(3 * (nanos * double_one())) <= (seconds(nanos) * 1_000_000_000 - nanos * double_one())
            * 0x20_0000_0000_0000 <= 3 * (nanos * double_one()),
        0 < seconds(nanos) <= 0x20_0000_0000 * double_one(),
{
    let u = double_one();
    let (w, r) = (nanos / 1_000_000_000, nanos % 1_000_000_000);
    lemma_one();
    lemma_whole(w);
    lemma_ratio(r, 1_000_000_000);
    lemma_mul_inequality(1, w, u);
    let f = double_quotient(whole(r), whole(1_000_000_000));
    if r > 0 {
        lemma_mul_inequality(1, r, u);
        lemma_nearest_in_error(53, r * u, 1_000_000_000);
    } else {
        lemma_mul_basics(u);
        lemma_nothing(1_000_000_000);
    }
    lemma_mul_inequality(0, r, u);
    lemma_mul_inequality(r, 1_000_000_000, u);
    lemma_mul_inequality(w, 0x4_0000_0000, u);
    let t = w * u + f;
    let s = double_sum(w * u, f);
    lemma_nearest_in_error(53, t, 1);
    assert(nanos * u == 1_000_000_000 * (w * u) + r * u) by (nonlinear_arith)
        requires
            nanos == 1_000_000_000 * w + r,
    ;
}

/// Whether a rate is the whole number nearest to how many came by how long that took, but
/// for what double precision loses: one part in 2^48 covers that.
pub open spec fn is_rate(hz: int, count: int, nanos: int) -> bool {
    let off = hz * nanos - count * 1_000_000_000;
    let lost = nanos + count * 1_000_000_000;
    &&& -lost <= 0x1_0000_0000_0000 * (2 * off + nanos)
    &&& 0x1_0000_0000_0000 * (2 * off - nanos) <= lost
}

/// Where a second or more has passed, the rate is the whole number nearest to how many
/// came by how long that took. After more than five centuries there is none left.
pub proof fn law_a_rate_is_the_count_by_the_time(count: int, nanos: int)
    requires
        0 < count <= u32::MAX,
        1_000_000_000 <= nanos,
    ensures
        nanos < 1_000_000_000 * 0x4_0000_0000 ==> is_rate(per_second(count, nanos), count, nanos),
        nanos >= 1_000_000_000 * 0x4_0000_0000 ==> per_second(count, nanos) == 0,
{
    if nanos >= 1_000_000_000 * 0x4_0000_0000 {
        lemma_too_long(count, nanos);
    } else {
        lemma_rate(count, nanos);
    }
}

proof fn lemma_rate(count: int, nanos: int)
    requires
        0 < count <= u32::MAX,
        1_000_000_000 <= nanos < 1_000_000_000 * 0x4_0000_0000,
    ensures
        is_rate(per_second(count, nanos), count, nanos),
{
    let u = double_one();
    let c: int = 0x20_0000_0000_0000;
    let g: int = 1_000_000_000;
    let s = seconds(nanos);
    lemma_one();
    lemma_seconds(nanos);
    lemma_whole(count);
    lemma_mul_inequality(1, count, u);
    let n = (count * u) * u;
    assert(n >= pow2(52) * s) by (nonlinear_arith)
        requires
            n == (count * u) * u,
            count * u >= u,
            u >= 0x10_0000_0000_0000 * 0x40_0000_0000,
            s <= 0x20_0000_0000 * u,
            pow2(52) == 0x10_0000_0000_0000,
    {
        assert(n >= u * u);
        assert(u * u >= (0x10_0000_0000_0000 * 0x40_0000_0000) * u);
    }
    lemma_nearest_in_error(53, n, s);
    let q = double_quotient(whole(count), s);
    assert(q == nearest_double(n, s));
    let hz = half_up(q);
    lemma_fundamental_div_mod(2 * q + u, 2 * u);
    lemma_mod_bound(2 * q + u, 2 * u);
    assert((2 * u) * hz == 2 * (hz * u)) by (nonlinear_arith);
    assert(-u <= 2 * (hz * u - q) <= u);
    lemma_rate_error(u, c, g, s, q, hz, count, nanos);
}

proof fn lemma_rate_error(
    u: int,
    c: int,
    g: int,
    s: int,
    q: int,
    hz: int,
    count: int,
    nanos: int,
)
    requires
        u > 0,
        c == 0x20_0000_0000_0000,
        g == 1_000_000_000,
        s > 0,
        0 < count,
        0 < nanos,
        -u <= 2 * (hz * u - q) <= u,
        -((count * u) * u) <= (q * s - (count * u) * u) * c <= (count * u) * u,
        -(3 * (nanos * u)) <= (s * g - nanos * u) * c <= 3 * (nanos * u),
    ensures
        is_rate(hz, count, nanos),
{
    // The rate by the span, against the count.
    let x = 2 * (hz * s) - 2 * (count * u);
    assert(-(s * c + 2 * (count * u)) <= x * c <= s * c + 2 * (count * u)) by (nonlinear_arith)
        requires
            -u <= 2 * (hz * u - q) <= u,
            -((count * u) * u) <= (q * s - (count * u) * u) * c <= (count * u) * u,
            x == 2 * (hz * s) - 2 * (count * u),
            u > 0,
            s > 0,
            c > 0,
    {
        let a = 2 * (hz * u - q);
        let b = (q * s - (count * u) * u) * c;
        assert(a * s <= u * s && a * s >= -(u * s));
        assert((a * s) * c <= (u * s) * c && (a * s) * c >= -(u * s) * c);
        assert((x * c) * u == (a * s) * c + 2 * b) by {
            assert((x * c) * u == (x * u) * c);
            assert(x * u == 2 * ((hz * u) * s) - 2 * ((count * u) * u));
            assert(a * s == 2 * ((hz * u) * s) - 2 * (q * s));
        }
        let top = s * c + 2 * (count * u);
        assert(top * u == (u * s) * c + 2 * ((count * u) * u));
        assert((x * c) * u <= top * u);
        assert((x * c) * u >= -(top * u));
        if x * c > top {
            assert((x * c) * u > top * u);
        }
        if x * c < -top {
            assert((x * c) * u < (-top) * u);
        }
    }
    // The same against the time itself.
    let e = s * g - nanos * u;
    let off = hz * nanos - count * g;
    let big = hz * nanos;
    assert(q > 0) by (nonlinear_arith)
        requires
            -((count * u) * u) <= (q * s - (count * u) * u) * c,
            count > 0,
            u > 0,
            s > 0,
            c > 1,
    {
        let n = (count * u) * u;
        assert(count * u > 0);
        assert(n > 0);
        assert((q * s) * c >= n * (c - 1));
        assert(n * (c - 1) > 0);
        if q <= 0 {
            assert(q * s <= 0);
            assert((q * s) * c <= 0);
        }
    }
    assert(hz >= 0) by (nonlinear_arith)
        requires
            -u <= 2 * (hz * u - q),
            q > 0,
            u > 0,
    {
        if hz < 0 {
            assert(hz * u <= -u);
        }
    }
    let room = nanos * c + 3 * nanos + 2 * (count * g) + 6 * big;
    let y = (2 * off) * c;
    let top = s * c + 2 * (count * u);
    let both = 2 * (u * off) + 2 * (hz * e);
    assert(x * g == both) by {
        assert(x * g == 2 * (hz * (s * g)) - 2 * ((count * g) * u)) by (nonlinear_arith)
            requires
                x == 2 * (hz * s) - 2 * (count * u),
        ;
        assert(hz * (s * g) == hz * e + (hz * nanos) * u) by (nonlinear_arith)
            requires
                e == s * g - nanos * u,
        ;
        assert(u * off == (hz * nanos) * u - (count * g) * u) by (nonlinear_arith)
            requires
                off == hz * nanos - count * g,
        ;
    }
    assert(-(top * g) <= (x * c) * g <= top * g) by (nonlinear_arith)
        requires
            -top <= x * c <= top,
            g > 0,
    ;
    assert((x * c) * g == (x * g) * c) by (nonlinear_arith);
    assert(both * c == y * u + 2 * (hz * (e * c))) by (nonlinear_arith)
        requires
            both == 2 * (u * off) + 2 * (hz * e),
            y == (2 * off) * c,
    ;
    assert(top * g == (s * g) * c + 2 * ((count * g) * u)) by (nonlinear_arith)
        requires
            top == s * c + 2 * (count * u),
    ;
    assert((s * g) * c == (nanos * c) * u + e * c) by (nonlinear_arith)
        requires
            e == s * g - nanos * u,
    ;
    assert(-(3 * (big * u)) <= hz * (e * c) <= 3 * (big * u)) by (nonlinear_arith)
        requires
            -(3 * (nanos * u)) <= e * c <= 3 * (nanos * u),
            big == hz * nanos,
            hz >= 0,
    {
        assert(hz * (e * c) <= hz * (3 * (nanos * u)));
        assert(hz * (e * c) >= hz * -(3 * (nanos * u)));
        assert(hz * (3 * (nanos * u)) == 3 * (big * u));
    }
    assert(room * u == (nanos * c) * u + 3 * (nanos * u) + 2 * ((count * g) * u) + 6 * (big * u))
        by (nonlinear_arith)
        requires
            room == nanos * c + 3 * nanos + 2 * (count * g) + 6 * big,
    ;
    assert(-(room * u) <= y * u <= room * u);
    assert(-room <= y <= room) by (nonlinear_arith)
        requires
            -(room * u) <= y * u <= room * u,
            u > 0,
    ;
}

} // verus!
