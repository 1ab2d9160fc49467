//! What the controller says, from the bytes of a report to the state of the
//! GameCube controller that they stand for.
use vstd::arithmetic::mul::*;
use vstd::arithmetic::power2::*;
use vstd::prelude::*;

use crate::protocol::calibration::laws::law_trigger_landmarks;
use crate::protocol::calibration::{travel, trigger_value, AxisCal, Calibration};
use crate::protocol::report::decoded;
use crate::protocol::state::{GcState, RawState};
use crate::reading::{
    effective_deadzone, lemma_rescaled, lemma_same_reading, rescaled, Reading,
};
use crate::rounding::{
    difference, lemma_nearest_error, lemma_nearest_exact, lemma_nearest_monotone,
    lemma_nearest_to_one, lemma_quotient_of_whole, nearest, one,
};

verus! {

/// Where the fields of a report stand, counted from the start of its body: the
/// buttons in four bytes from the fifth on, lowest first, each stick in three
/// bytes, and the triggers in the last two that have to be there.
pub proof fn law_report_layout(data: Seq<u8>, base: int)
    requires
        0 <= base,
    ensures
        decoded(data, base) is Some <==> data.len() >= base + 62,
        decoded(data, base) matches Some(s) ==> {
            &&& s.buttons as int % 256 == data[base + 4]
            &&& s.buttons as int / 0x100 % 256 == data[base + 5]
            &&& s.buttons as int / 0x1_0000 % 256 == data[base + 6]
            &&& s.buttons as int / 0x100_0000 == data[base + 7]
            &&& s.left_stick.0 as int % 256 == data[base + 10]
            &&& s.left_stick.0 as int / 256 == data[base + 11] as int % 16
            &&& s.left_stick.1 as int % 16 == data[base + 11] as int / 16
            &&& s.left_stick.1 as int / 16 == data[base + 12]
            &&& s.right_stick.0 as int % 256 == data[base + 13]
            &&& s.right_stick.0 as int / 256 == data[base + 14] as int % 16
            &&& s.right_stick.1 as int % 16 == data[base + 14] as int / 16
            &&& s.right_stick.1 as int / 16 == data[base + 15]
            &&& s.trigger_l == data[base + 60]
            &&& s.trigger_r == data[base + 61]
        },
{
    if data.len() >= base + 62 {
        let body = data.skip(base);
        assert(body[4] == data[base + 4] && body[5] == data[base + 5] && body[6] == data[base + 6]
            && body[7] == data[base + 7]);
        assert(body[10] == data[base + 10] && body[11] == data[base + 11] && body[12] == data[base
            + 12]);
        assert(body[13] == data[base + 13] && body[14] == data[base + 14] && body[15] == data[base
            + 15]);
        assert(body[60] == data[base + 60] && body[61] == data[base + 61]);
    }
}

/// Each button has a bit of its own in a report, and is held where that is set.
pub proof fn law_every_button_has_its_own_bit(cal: Calibration, raw: RawState, s: GcState)
    requires
        cal.applies(raw, s),
    ensures
        s.y <==> raw.buttons as int % 2 == 1,
        s.x <==> raw.buttons as int / 0x2 % 2 == 1,
        s.b <==> raw.buttons as int / 0x4 % 2 == 1,
        s.a <==> raw.buttons as int / 0x8 % 2 == 1,
        s.r <==> raw.buttons as int / 0x40 % 2 == 1,
        s.z <==> raw.buttons as int / 0x80 % 2 == 1,
        s.start <==> raw.buttons as int / 0x200 % 2 == 1,
        s.home <==> raw.buttons as int / 0x1000 % 2 == 1,
        s.capture <==> raw.buttons as int / 0x2000 % 2 == 1,
        s.c_button <==> raw.buttons as int / 0x4000 % 2 == 1,
        s.d_down <==> raw.buttons as int / 0x1_0000 % 2 == 1,
        s.d_up <==> raw.buttons as int / 0x2_0000 % 2 == 1,
        s.d_right <==> raw.buttons as int / 0x4_0000 % 2 == 1,
        s.d_left <==> raw.buttons as int / 0x8_0000 % 2 == 1,
        s.l <==> raw.buttons as int / 0x40_0000 % 2 == 1,
{
    lemma2_to64();
}

/// Whether two numbers of units differ by no more than rounding to single
/// precision allows, both being `d` times a value of at most 1.
pub open spec fn near(a: int, b: int, d: int) -> bool {
    -(d * one()) <= (a - b) * 0x100_0000 <= d * one()
}

/// Whether an axis reads what its stick is pushed to. Up from the centre it is on
/// the positive side, and reaches 1 where the calibrated range ends; down from it
/// the same with -1; and between them it is as far along as the stick is. Without
/// calibration the centre is 2048, and the range 2047 either way.
pub open spec fn tracks(cal: AxisCal, raw: u16, units: int, negative: bool) -> bool {
    let known = cal.neutral > 0 && cal.max > 0 && cal.min > 0;
    let centre = if known {
        cal.neutral as int
    } else {
        2048
    };
    let up = if known {
        cal.max as int
    } else {
        2047
    };
    let down = if known {
        cal.min as int
    } else {
        2047
    };
    &&& negative <==> raw < centre
    &&& raw == centre ==> units == 0
    &&& raw >= centre + up ==> units == one()
    &&& raw <= centre - down ==> units == -one()
    &&& centre <= raw <= centre + up ==> near(units * up, (raw - centre) * one(), up)
    &&& centre - down <= raw <= centre ==> near(units * down, (raw - centre) * one(), down)
}

/// An axis reads what its stick is pushed to.
pub proof fn law_an_axis_reads_what_it_is_pushed_to(cal: AxisCal, raw: u16)
    ensures
        tracks(cal, raw, cal.value(raw), cal.offset(raw) < 0),
{
    let (p, q) = (cal.offset(raw), cal.reach(raw));
    lemma_pow2_pos(149);
    lemma_quotient_of_whole(p, q);
    let n = if p < 0 {
        -p
    } else {
        p
    };
    lemma_mul_inequality(0, n, one());
    assert(-(p * one()) == (-p) * one()) by (nonlinear_arith);
    assert(p * one() < 0 <==> p < 0) by (nonlinear_arith)
        requires
            one() > 0,
    ;
    if n >= q {
        lemma_mul_inequality(q, n, one());
        lemma_nearest_to_one(n * one(), q);
    }
    if n <= q {
        lemma_mul_inequality(n, q, one());
        lemma_nearest_to_one(n * one(), q);
        lemma_nearest_error(n * one(), q);
        let v = cal.value(raw);
        assert((-v) * q == -(v * q)) by (nonlinear_arith);
    }
}

/// Both sticks read what they are pushed to, on the axis that they are pushed on,
/// right and up being positive, and nothing is turned round but the vertical axis
/// of a stick that this was asked for.
pub proof fn law_sticks_read_what_they_are_pushed_to(cal: Calibration, raw: RawState, s: GcState)
    requires
        cal.applies(raw, s),
    ensures
        tracks(cal.left.x, raw.left_stick.0, s.main.0.units(), s.main.0.is_negative()),
        tracks(cal.right.x, raw.right_stick.0, s.c_stick.0.units(), s.c_stick.0.is_negative()),
        if cal.invert_left_y {
            tracks(cal.left.y, raw.left_stick.1, -s.main.1.units(), !s.main.1.is_negative())
        } else {
            tracks(cal.left.y, raw.left_stick.1, s.main.1.units(), s.main.1.is_negative())
        },
        if cal.invert_right_y {
            tracks(cal.right.y, raw.right_stick.1, -s.c_stick.1.units(), !s.c_stick.1.is_negative())
        } else {
            tracks(cal.right.y, raw.right_stick.1, s.c_stick.1.units(), s.c_stick.1.is_negative())
        },
{
    law_an_axis_reads_what_it_is_pushed_to(cal.left.x, raw.left_stick.0);
    law_an_axis_reads_what_it_is_pushed_to(cal.left.y, raw.left_stick.1);
    law_an_axis_reads_what_it_is_pushed_to(cal.right.x, raw.right_stick.0);
    law_an_axis_reads_what_it_is_pushed_to(cal.right.y, raw.right_stick.1);
}

/// Asking for a stick to be turned round turns its vertical axis and nothing else:
/// of two calibrations that differ in that alone, each gives the same report the
/// same buttons, triggers and horizontal axes.
pub proof fn law_turning_a_stick_round_turns_one_axis(
    first: Calibration,
    second: Calibration,
    raw: RawState,
    s: GcState,
    t: GcState,
)
    requires
        first.left == second.left,
        first.right == second.right,
        first.trigger_l_zero == second.trigger_l_zero,
        first.trigger_r_zero == second.trigger_r_zero,
        first.trigger_deadzone == second.trigger_deadzone,
        first.applies(raw, s),
        second.applies(raw, t),
    ensures
        s.main.0 == t.main.0,
        s.c_stick.0 == t.c_stick.0,
        s.trigger_l == t.trigger_l,
        s.trigger_r == t.trigger_r,
        (s.a, s.b, s.x, s.y, s.z, s.start) == (t.a, t.b, t.x, t.y, t.z, t.start),
        (s.l, s.r, s.d_up, s.d_down, s.d_left) == (t.l, t.r, t.d_up, t.d_down, t.d_left),
        (s.d_right, s.home, s.capture, s.c_button) == (t.d_right, t.home, t.capture, t.c_button),
        first.invert_left_y == second.invert_left_y ==> s.main.1 == t.main.1,
        first.invert_left_y != second.invert_left_y ==> s.main.1.units() == -t.main.1.units()
            && s.main.1.is_negative() != t.main.1.is_negative(),
        first.invert_right_y == second.invert_right_y ==> s.c_stick.1 == t.c_stick.1,
        first.invert_right_y != second.invert_right_y ==> s.c_stick.1.units()
            == -t.c_stick.1.units() && s.c_stick.1.is_negative() != t.c_stick.1.is_negative(),
{
    lemma_same_reading(s.main.0, t.main.0);
    lemma_same_reading(s.c_stick.0, t.c_stick.0);
    lemma_same_reading(s.trigger_l, t.trigger_l);
    lemma_same_reading(s.trigger_r, t.trigger_r);
    if first.invert_left_y == second.invert_left_y {
        lemma_same_reading(s.main.1, t.main.1);
    }
    if first.invert_right_y == second.invert_right_y {
        lemma_same_reading(s.c_stick.1, t.c_stick.1);
    }
}

/// Whether a trigger reads what it is pulled to. Up to its zero point it is
/// released, from 232 on it is pulled fully, and a zero point of 232 or more leaves
/// nothing to pull. In between, travel up to the deadzone is none, and the travel
/// beyond it is spread over what the deadzone leaves.
pub open spec fn pulls(zero: u8, deadzone: int, raw: u8, units: int, negative: bool) -> bool {
    let dz = if deadzone < 0 {
        0
    } else {
        deadzone
    };
    let (past, span) = (raw - zero, 232 - zero);
    &&& !negative
    &&& 0 <= units <= one()
    &&& zero >= 232 ==> units == 0
    &&& past <= 0 ==> units == 0
    &&& span > 0 && past >= span ==> units == one()
    &&& 0 < past < span && past * one() <= dz * span ==> units == 0
    &&& 0 < past < span && past * one() > dz * span ==> {
        let (is, ought) = (units * (one() - dz) * span, (past * one() - dz * span) * one());
        -(span * one() * one()) <= (is - ought) * 0x40_0000 <= span * one() * one()
    }
}

proof fn lemma_rescaling_error(v: int, dz: int, s: int, room: int, r: int)
    requires
        0 <= dz <= v <= one(),
        0 <= s,
        0 < room <= one(),
        0 <= r <= one(),
        -one() <= (s - (v - dz)) * 0x100_0000 <= one(),
        -one() <= (room - (one() - dz)) * 0x100_0000 <= one(),
        -(room * one()) <= (r * room - s * one()) * 0x100_0000 <= room * one(),
    ensures
        -(3 * (one() * one())) <= (r * (one() - dz) - (v - dz) * one()) * 0x100_0000 <= 3 * (one()
            * one()),
{
    let o = one();
    let c: int = 0x100_0000;
    lemma_pow2_pos(149);
    let (e1, e2) = (s - (v - dz), room - (o - dz));
    assert(-(o * o) <= (e1 * c) * o <= o * o) by (nonlinear_arith)
        requires
            -o <= e1 * c <= o,
            o > 0,
    ;
    assert(-(o * o) <= r * (e2 * c) <= o * o) by (nonlinear_arith)
        requires
            -o <= e2 * c <= o,
            0 <= r <= o,
            o > 0,
    ;
    assert(room * o <= o * o) by (nonlinear_arith)
        requires
            room <= o,
            o > 0,
    ;
    assert((r * (o - dz) - (v - dz) * o) * c == (r * room - s * o) * c + (e1 * c) * o - r * (e2
        * c)) by (nonlinear_arith)
        requires
            e1 == s - (v - dz),
            e2 == room - (o - dz),
    ;
}

/// A trigger reads what it is pulled to, as far as its deadzone lets it.
#[verifier::spinoff_prover]
pub proof fn law_a_trigger_reads_what_it_is_pulled_to(zero: u8, deadzone: Reading, raw: u8)
    requires
        deadzone.wf(),
    ensures
        pulls(zero, deadzone.units(), raw, trigger_value(zero, deadzone.units(), raw), false),
{
    let o = one();
    let c: int = 0x100_0000;
    let d = deadzone.units();
    let dz = effective_deadzone(d);
    lemma_pow2_pos(149);
    deadzone.lemma_bounds();
    law_trigger_landmarks(zero, d, raw);
    let (past, span) = (raw - zero, 232 - zero);
    if 0 < past < span {
        let v = travel(zero, raw);
        lemma_quotient_of_whole(past, span);
        lemma_mul_inequality(0, past, o);
        lemma_mul_inequality(past, span, o);
        lemma_nearest_to_one(past * o, span);
        lemma_nearest_error(past * o, span);
        assert(v == nearest(past * o, span));
        assert(v < o) by (nonlinear_arith)
            requires
                (v * span - past * o) * c <= span * o,
                past <= span - 1,
                0 < span <= 232,
                c == 0x100_0000,
                o > 0,
        {
            assert(past * o <= (span - 1) * o);
            assert((v * span - (span - 1) * o) * c <= 232 * o);
            if v >= o {
                assert(v * span >= o * span);
            }
        }
        lemma_rescaled(v, d);
        let r = rescaled(v, d);
        if past * o <= dz * span {
            lemma_representable(deadzone);
            lemma_nearest_exact(0, 0);
            lemma_mul_basics(pow2(0) as int);
            lemma_nearest_monotone(past * o, span, dz, 1);
        } else if v <= dz {
            let gap = past * o - dz * span;
            assert(-(span * o * o) <= (0 - gap * o) * 0x40_0000 <= span * o * o) by (nonlinear_arith)
                requires
                    gap == past * o - dz * span,
                    gap > 0,
                    v <= dz,
                    -(span * o) <= (v * span - past * o) * c,
                    c == 0x100_0000,
                    span > 0,
                    o > 0,
            {
                assert(v * span <= dz * span);
                assert(gap * c <= span * o);
                assert((gap * c) * o <= (span * o) * o);
                assert((gap * o) * c == (gap * c) * o);
                assert(gap * o >= 0);
                assert(span * o * o >= 0);
            }
            assert(r * (o - dz) * span == 0) by (nonlinear_arith)
                requires
                    r == 0,
            ;
        } else {
            let (s, room) = (difference(v, dz), difference(o, dz));
            lemma_nearest_error(v - dz, 1);
            lemma_nearest_error(o - dz, 1);
            lemma_nearest_to_one(o - dz, 1);
            lemma_mul_inequality(0, s, o);
            lemma_mul_inequality(s, room, o);
            lemma_nearest_error(s * o, room);
            lemma_rescaling_error(v, dz, s, room, r);
            let (x, y) = (r * (o - dz), (v - dz) * o);
            assert(-(span * o * o) <= (x * span - (past * o - dz * span) * o) * 0x40_0000
                <= span * o * o) by (nonlinear_arith)
                requires
                    -(3 * (o * o)) <= (x - y) * c <= 3 * (o * o),
                    -(span * o) <= (v * span - past * o) * c <= span * o,
                    y == (v - dz) * o,
                    c == 0x100_0000,
                    span > 0,
                    o > 0,
            {
                let e = v * span - past * o;
                assert(x * span - (past * o - dz * span) * o == (x - y) * span + e * o);
                assert(((x - y) * span) * c == ((x - y) * c) * span);
                assert(((x - y) * c) * span <= (3 * (o * o)) * span);
                assert(((x - y) * c) * span >= -(3 * (o * o)) * span);
                assert((e * o) * c == (e * c) * o);
                assert((e * c) * o <= (span * o) * o);
                assert((e * c) * o >= -(span * o) * o);
                assert((3 * (o * o)) * span + (span * o) * o == 4 * (span * o * o));
            }
        }
    }
}

/// A deadzone is a value that single precision has.
proof fn lemma_representable(deadzone: Reading)
    requires
        deadzone.wf(),
    ensures
        nearest(effective_deadzone(deadzone.units()), 1) == effective_deadzone(deadzone.units()),
{
    lemma_nearest_exact(0, 0);
    lemma_mul_basics(pow2(0) as int);
    deadzone.lemma_bounds();
    deadzone.lemma_representable();
}

/// Each trigger reads what it is pulled to, from its own zero point.
pub proof fn law_triggers_read_what_they_are_pulled_to(cal: Calibration, raw: RawState, s: GcState)
    requires
        cal.trigger_deadzone.wf(),
        cal.applies(raw, s),
    ensures
        ({
            let dz = cal.trigger_deadzone.units();
            let (l, r) = (s.trigger_l, s.trigger_r);
            &&& pulls(cal.trigger_l_zero, dz, raw.trigger_l, l.units(), l.is_negative())
            &&& pulls(cal.trigger_r_zero, dz, raw.trigger_r, r.units(), r.is_negative())
        }),
{
    law_a_trigger_reads_what_it_is_pulled_to(
        cal.trigger_l_zero,
        cal.trigger_deadzone,
        raw.trigger_l,
    );
    law_a_trigger_reads_what_it_is_pulled_to(
        cal.trigger_r_zero,
        cal.trigger_deadzone,
        raw.trigger_r,
    );
}

} // verus!
