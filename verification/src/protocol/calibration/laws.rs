//! What calibration promises of every reading.
use vstd::arithmetic::mul::*;
use vstd::arithmetic::power2::*;
use vstd::prelude::*;

use crate::protocol::calibration::{
    absorbs, addr, blocks, factory_stick, flipped, is_blank, serial_after, stick_after, text_of,
    travel, trigger_value, user_stick, AxisCal, Calibration, StickCal, TRIGGER_FULL,
};
use crate::protocol::state::{GcState, RawState};
use crate::reading::{effective_deadzone, lemma_rescaled, lemma_same_reading};
use crate::rounding::{
    difference, lemma_nearest_exact, lemma_nearest_idempotent, lemma_nearest_monotone,
    lemma_nearest_scale, lemma_nearest_to_one, lemma_quotient_monotone, lemma_quotient_of_whole,
    one,
};

verus! {

/// The centre reads 0, and from the end of the range on an axis reads full
/// scale: exactly 1 above, exactly -1 below.
pub proof fn law_axis_landmarks(cal: AxisCal, raw: u16)
    ensures
        cal.offset(raw) == 0 ==> cal.value(raw) == 0,
        cal.offset(raw) >= cal.reach(raw) ==> cal.value(raw) == one(),
        cal.offset(raw) <= -cal.reach(raw) ==> cal.value(raw) == -one(),
        -one() <= cal.value(raw) <= one(),
{
    let (p, q) = (cal.offset(raw), cal.reach(raw));
    lemma_pow2_pos(149);
    lemma_quotient_of_whole(p, q);
    let n = if p < 0 {
        -p
    } else {
        p
    };
    lemma_mul_inequality(0, n, one());
    assert(-(p * one()) == (-p) * one()) by (nonlinear_arith);
    assert(p * one() < 0 <==> p < 0) by (nonlinear_arith)
        requires
            one() > 0,
    ;
    if n >= q {
        lemma_mul_inequality(q, n, one());
        lemma_nearest_to_one(n * one(), q);
    }
}

/// The two halves of the range scale separately: half way along either side
/// reads exactly half, whatever the other side's reach.
pub proof fn law_axis_halfway(cal: AxisCal, raw: u16)
    ensures
        2 * cal.offset(raw) == cal.reach(raw) ==> 2 * cal.value(raw) == one(),
        2 * cal.offset(raw) == -cal.reach(raw) ==> 2 * cal.value(raw) == -one(),
{
    let (p, q) = (cal.offset(raw), cal.reach(raw));
    let half = pow2(148) as int;
    lemma_pow2_pos(148);
    lemma_pow2_unfold(149);
    lemma_quotient_of_whole(p, q);
    let n = if p < 0 {
        -p
    } else {
        p
    };
    assert(-(p * one()) == (-p) * one()) by (nonlinear_arith);
    assert(p * one() < 0 <==> p < 0) by (nonlinear_arith)
        requires
            one() > 0,
    ;
    if 2 * n == q {
        assert(n * one() == half * q) by (nonlinear_arith)
            requires
                2 * n == q,
                one() == 2 * half,
        ;
        lemma_nearest_scale(half, 1, q);
        lemma_nearest_exact(1, 148);
        lemma_mul_basics(half);
    }
}

/// A higher raw reading never gives a lower value.
pub proof fn law_axis_monotone(cal: AxisCal, low: u16, high: u16)
    requires
        low <= high,
    ensures
        cal.value(low) <= cal.value(high),
{
    let (p1, q1) = (cal.offset(low), cal.reach(low));
    let (p2, q2) = (cal.offset(high), cal.reach(high));
    lemma_quotient_of_whole(p1, q1);
    lemma_quotient_of_whole(p2, q2);
    if (p1 < 0) == (p2 < 0) {
        lemma_pow2_pos(149);
        lemma_mul_inequality(p1, p2, one());
        lemma_mul_inequality(1, q1, one());
        lemma_quotient_monotone(p1 * one(), p2 * one(), q1 * one());
    }
}

/// The travel of a trigger is none up to its zero point, all of it from full pull
/// on, and in between never less for a trigger pulled further.
proof fn lemma_travel(zero: u8, low: u8, high: u8)
    requires
        low <= high,
    ensures
        0 <= travel(zero, low) <= travel(zero, high) <= one(),
        low <= zero ==> travel(zero, low) == 0,
        zero < TRIGGER_FULL <= low ==> travel(zero, low) == one(),
{
    lemma_pow2_pos(149);
    if zero < TRIGGER_FULL {
        let q = TRIGGER_FULL - zero;
        let (p1, p2) = (low - zero, high - zero);
        lemma_quotient_of_whole(p1, q);
        lemma_mul_inequality(p1, p2, one());
        lemma_mul_inequality(1, q, one());
        lemma_quotient_monotone(p1 * one(), p2 * one(), q * one());
        if p1 >= q {
            lemma_mul_inequality(0, p1, one());
            lemma_mul_inequality(q, p1, one());
            lemma_nearest_to_one(p1 * one(), q);
        }
    }
}

/// A trigger at or below its zero point reads 0, one at full pull or beyond
/// reads exactly 1 whatever the deadzone, and no reading leaves that range.
pub proof fn law_trigger_landmarks(zero: u8, deadzone: int, raw: u8)
    ensures
        raw <= zero ==> trigger_value(zero, deadzone, raw) == 0,
        zero < TRIGGER_FULL <= raw ==> trigger_value(zero, deadzone, raw) == one(),
        0 <= trigger_value(zero, deadzone, raw) <= one(),
{
    lemma_pow2_pos(149);
    lemma_travel(zero, raw, raw);
    lemma_rescaled(travel(zero, raw), deadzone);
}

/// Whatever the deadzone, a trigger whose travel does not go beyond it reads as
/// released, unless it is pulled fully: then it still reads exactly 1.
pub proof fn law_trigger_rests_in_the_deadzone(zero: u8, deadzone: int, raw: u8)
    ensures
        travel(zero, raw) < deadzone <= one() ==> trigger_value(zero, deadzone, raw) == 0,
        travel(zero, raw) <= deadzone && travel(zero, raw) < one() ==> trigger_value(
            zero,
            deadzone,
            raw,
        ) == 0,
        travel(zero, raw) == one() ==> trigger_value(zero, deadzone, raw) == one(),
{
    lemma_travel(zero, raw, raw);
}

/// Without a deadzone a trigger reads its share of the travel from zero point
/// to full pull.
pub proof fn law_trigger_without_deadzone(zero: u8, raw: u8)
    ensures
        trigger_value(zero, 0, raw) == travel(zero, raw),
{
    lemma_pow2_pos(149);
    lemma_travel(zero, raw, raw);
    let v = travel(zero, raw);
    lemma_rescaled(v, 0);
    if 0 < v < one() {
        let (p, q) = (raw - zero, TRIGGER_FULL - zero);
        lemma_quotient_of_whole(p, q);
        lemma_nearest_to_one(one(), 1);
        lemma_mul_inequality(0, p, one());
        lemma_nearest_idempotent(p * one(), q);
        assert(difference(v, 0) == v);
        lemma_nearest_scale(v, 1, one());
        lemma_mul_basics(one());
        lemma_mul_inequality(0, v, one());
    }
}

/// A trigger pulled further never reads less.
pub proof fn law_trigger_monotone(zero: u8, deadzone: int, low: u8, high: u8)
    requires
        low <= high,
    ensures
        trigger_value(zero, deadzone, low) <= trigger_value(zero, deadzone, high),
{
    lemma_travel(zero, low, high);
    let (v1, v2) = (travel(zero, low), travel(zero, high));
    let dz = effective_deadzone(deadzone);
    lemma_rescaled(v1, deadzone);
    lemma_rescaled(v2, deadzone);
    if dz < v1 && v2 < one() {
        lemma_nearest_monotone(v1 - dz, 1, v2 - dz, 1);
        lemma_quotient_monotone(difference(v1, dz), difference(v2, dz), difference(one(), dz));
    }
}

/// Flipping an axis twice changes nothing.
pub proof fn law_flipping_undoes_itself(v: int, invert: bool)
    ensures
        flipped(flipped(v, invert), invert) == v,
{
}

/// A report means one thing under a calibration.
pub proof fn law_a_report_has_one_meaning(cal: Calibration, raw: RawState, s: GcState, t: GcState)
    requires
        cal.applies(raw, s),
        cal.applies(raw, t),
    ensures
        s == t,
{
    lemma_same_reading(s.main.0, t.main.0);
    lemma_same_reading(s.main.1, t.main.1);
    lemma_same_reading(s.c_stick.0, t.c_stick.0);
    lemma_same_reading(s.c_stick.1, t.c_stick.1);
    lemma_same_reading(s.trigger_l, t.trigger_l);
    lemma_same_reading(s.trigger_r, t.trigger_r);
}

/// Read after the factory block, the user block decides where it is written,
/// and the factory block where it is not.
pub proof fn law_user_calibration_overrides_factory(
    stick: StickCal,
    factory: Seq<u8>,
    user: Seq<u8>,
)
    ensures
        ({
            let (f, u) = (addr::LEFT_STICK, addr::USER_LEFT_STICK);
            stick_after(stick_after(stick, f, u, f, factory), f, u, u, user) == match user_stick(
                user,
            ) {
                Some(c) => c,
                None => match factory_stick(factory) {
                    Some(c) => c,
                    None => stick,
                },
            }
        }),
        ({
            let (f, u) = (addr::RIGHT_STICK, addr::USER_RIGHT_STICK);
            stick_after(stick_after(stick, f, u, f, factory), f, u, u, user) == match user_stick(
                user,
            ) {
                Some(c) => c,
                None => match factory_stick(factory) {
                    Some(c) => c,
                    None => stick,
                },
            }
        }),
{
}

/// Once all blocks were read in order, from nothing: each stick has its user
/// calibration where that was written, else the factory's; the triggers rest where
/// their block says, if it is long enough to say so; and the serial number is the
/// one in the first block.
pub proof fn law_all_blocks_make_the_calibration(steps: Seq<Calibration>, read: Seq<Seq<u8>>)
    requires
        steps.len() == 7,
        read.len() == 6,
        is_blank(steps[0]),
        forall|i: int|
            0 <= i < 6 ==> absorbs(steps[i], steps[i + 1], blocks()[i], #[trigger] read[i]),
    ensures
        text_of(steps[6].serial) == serial_after(None, addr::SERIAL, read[0]),
        steps[6].left == match (user_stick(read[4]), factory_stick(read[1])) {
            (Some(user), _) => user,
            (None, Some(factory)) => factory,
            (None, None) => steps[0].left,
        },
        steps[6].right == match (user_stick(read[5]), factory_stick(read[2])) {
            (Some(user), _) => user,
            (None, Some(factory)) => factory,
            (None, None) => steps[0].right,
        },
        read[3].len() >= 2 ==> steps[6].trigger_l_zero == read[3][0] && steps[6].trigger_r_zero
            == read[3][1],
{
    assert(absorbs(steps[0], steps[1], blocks()[0], read[0]));
    assert(absorbs(steps[1], steps[2], blocks()[1], read[1]));
    assert(absorbs(steps[2], steps[3], blocks()[2], read[2]));
    assert(absorbs(steps[3], steps[4], blocks()[3], read[3]));
    assert(absorbs(steps[4], steps[5], blocks()[4], read[4]));
    assert(absorbs(steps[5], steps[6], blocks()[5], read[5]));
}

/// A user block that was never written, all zeroes or all 0xFF, says nothing of
/// a stick.
pub proof fn law_an_unwritten_block_is_ignored(block: Seq<u8>, fill: u8)
    requires
        fill == 0x00 || fill == 0xFF,
        forall|i: int| 0 <= i < block.len() ==> block[i] == fill,
    ensures
        user_stick(block) is None,
{
}

} // verus!
