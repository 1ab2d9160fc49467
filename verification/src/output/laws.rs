//! What Dolphin is sent and what is printed, held to the state they stand for: by
//! the fields of the state, and the texts as they are read.
use vstd::arithmetic::mul::*;
use vstd::arithmetic::power2::*;
use vstd::prelude::*;
use vstd::string::*;

use crate::digits::{digit, digits, power_of_ten, reading_text, steps_text};
use crate::output::dump::{button_held, button_name, held_names, line_text, SHOWN};
use crate::output::pipe::{axis_steps, delta, is_sent, line, trigger_steps, CONTROLS};
use crate::protocol::state::{well_formed, GcState, RawState};
use crate::reading::{lemma_unit_axis_bounds, on_unit_axis, Reading};
use crate::rounding::{
    decimal, lemma_half_even_error, lemma_nearest_error_below, lemma_nearest_exact,
    lemma_nearest_monotone, nearest, one, sum,
};

verus! {

/// A digit as it is written.
pub open spec fn cipher(n: int) -> char {
    "0123456789abcdef"@[n]
}

/// A number of ten-thousandths as it is written.
pub open spec fn four_places(k: int) -> Seq<char> {
    seq![
        cipher(k / 10_000),
        '.',
        cipher(k / 1000 % 10),
        cipher(k / 100 % 10),
        cipher(k / 10 % 10),
        cipher(k % 10),
    ]
}

/// A number of thousandths as it is written.
pub open spec fn three_places(k: int) -> Seq<char> {
    seq![cipher(k / 1000), '.', cipher(k / 100 % 10), cipher(k / 10 % 10), cipher(k % 10)]
}

/// A number of hundredths as it is written.
pub open spec fn two_places(k: int) -> Seq<char> {
    seq![cipher(k / 100), '.', cipher(k / 10 % 10), cipher(k % 10)]
}

proof fn lemma_digit(n: int)
    requires
        0 <= n < 16,
    ensures
        digit(n) == cipher(n),
{
    reveal_strlit("0123456789abcdef");
}

proof fn lemma_written(k: int)
    ensures
        0 <= k <= 10_000 ==> steps_text(k, 4) == four_places(k),
        0 <= k <= 1000 ==> steps_text(k, 3) == three_places(k),
        0 <= k <= 100 ==> steps_text(k, 2) == two_places(k),
{
    reveal_strlit(".");
    reveal_with_fuel(power_of_ten, 5);
    reveal_with_fuel(digits, 5);
    if 0 <= k <= 10_000 {
        lemma_digit(k / 10_000);
        lemma_digit(k / 1000 % 10);
        lemma_digit(k / 100 % 10);
        lemma_digit(k / 10 % 10);
        lemma_digit(k % 10);
        assert(steps_text(k, 4) =~= four_places(k));
    }
    if 0 <= k <= 1000 {
        lemma_digit(k / 1000);
        lemma_digit(k / 100 % 10);
        lemma_digit(k / 10 % 10);
        lemma_digit(k % 10);
        assert(steps_text(k, 3) =~= three_places(k));
    }
    if 0 <= k <= 100 {
        lemma_digit(k / 100);
        lemma_digit(k / 10 % 10);
        lemma_digit(k % 10);
        assert(steps_text(k, 2) =~= two_places(k));
    }
}

/// Whether a number of `scale`-ths is what a reading of any sign comes to, without
/// its sign: no other is nearer, and half way between two of them it is the even one.
pub open spec fn comes_to(r: Reading, scale: int, k: int) -> bool {
    let size = if r.units() < 0 {
        -r.units()
    } else {
        r.units()
    };
    &&& 0 <= k <= scale
    &&& -one() <= 2 * (k * one() - scale * size) <= one()
    &&& 2 * (k * one() - scale * size) == one() || 2 * (k * one() - scale * size) == -one() ==> k
        % 2 == 0
}

/// Whether a number of ten-thousandths is what an axis comes to once its range from
/// -1 to 1 is moved onto the one from 0 to 1. Next to half way between two of them,
/// what single precision does to it decides.
pub open spec fn comes_to_on_unit_axis(r: Reading, k: int) -> bool {
    &&& 0 <= k <= 10_000
    &&& -257 * one() <= 256 * (2 * (k * one()) - 10_000 * (r.units() + one())) <= 257 * one()
}

proof fn lemma_decimal(u: int, scale: int)
    requires
        0 <= u <= one(),
        0 < scale,
    ensures
        0 <= decimal(u, scale) <= scale,
        -one() <= 2 * (decimal(u, scale) * one() - scale * u) <= one(),
        2 * (decimal(u, scale) * one() - scale * u) == one() || 2 * (decimal(u, scale) * one()
            - scale * u) == -one() ==> decimal(u, scale) % 2 == 0,
{
    lemma_pow2_pos(149);
    let k = decimal(u, scale);
    lemma_half_even_error(u * scale, one());
    assert(u * scale == scale * u) by (nonlinear_arith);
    assert(0 <= scale * u <= scale * one()) by (nonlinear_arith)
        requires
            0 <= u <= one(),
            0 < scale,
    ;
    assert(0 <= k <= scale) by (nonlinear_arith)
        requires
            -one() <= 2 * (k * one() - scale * u) <= one(),
            0 <= scale * u <= scale * one(),
            one() > 0,
    {
        if k < 0 {
            assert(k * one() <= -one());
        }
        if k > scale {
            assert(k * one() >= scale * one() + one());
        }
    }
}

/// A reading is written to the nearest digit.
pub proof fn law_a_reading_is_written_to_the_nearest_digit(r: Reading, scale: int)
    requires
        r.wf(),
        0 < scale,
    ensures
        comes_to(r, scale, decimal(r.magnitude(), scale)),
{
    r.lemma_bounds();
    lemma_decimal(r.magnitude(), scale);
}

/// An axis is written where it lies between its ends, the centre at a half.
pub proof fn law_an_axis_is_written_where_it_lies(r: Reading)
    requires
        r.wf(),
    ensures
        comes_to_on_unit_axis(r, axis_steps(r)),
{
    let o = one();
    let u = r.units();
    lemma_pow2_pos(149);
    lemma_pow2_unfold(150);
    r.lemma_bounds();
    lemma_unit_axis_bounds(u);
    let (w, q) = (sum(u, o), on_unit_axis(u));
    assert(w == nearest(u + o, 1));
    lemma_nearest_error_below(u + o, 1, 150);
    lemma_unit_sum(u);
    lemma_mul_inequality(0, w, o);
    lemma_mul_inequality(w, 2 * o, o);
    lemma_nearest_error_below(w * o, 2 * o, 149);
    assert(-(2 * o) <= (2 * q - w) * 0x100_0000 <= 2 * o) by (nonlinear_arith)
        requires
            -((2 * o) * o) <= (q * (2 * o) - w * o) * 0x100_0000 <= (2 * o) * o,
            o > 0,
    {
        let e = (2 * q - w) * 0x100_0000;
        assert((q * (2 * o) - w * o) * 0x100_0000 == e * o);
        if e > 2 * o {
            assert(e * o > (2 * o) * o);
        }
        if e < -(2 * o) {
            assert(e * o < -(2 * o) * o);
        }
    }
    lemma_decimal(q, 10_000);
}

proof fn lemma_unit_sum(u: int)
    requires
        -one() <= u <= one(),
    ensures
        0 <= sum(u, one()) <= 2 * one(),
{
    lemma_pow2_pos(149);
    lemma_pow2_unfold(150);
    lemma2_to64();
    lemma_pow2_adds(23, 127);
    lemma_nearest_exact(0x80_0000, 127);
    lemma_nearest_monotone(u + one(), 1, 2 * one(), 1);
}

/// What a button adds to an update: nothing where Dolphin has it as it is.
pub open spec fn button_text(fresh: bool, was: bool, is: bool, name: Seq<char>) -> Seq<char> {
    if !fresh && was == is {
        Seq::empty()
    } else if is {
        "PRESS "@ + name + "\n"@
    } else {
        "RELEASE "@ + name + "\n"@
    }
}

/// What a stick adds to an update: nothing where Dolphin has both its axes as they
/// would be written.
pub open spec fn stick_text(
    fresh: bool,
    was: (Reading, Reading),
    is: (Reading, Reading),
    name: Seq<char>,
) -> Seq<char> {
    let (x, y) = (axis_steps(is.0), axis_steps(is.1));
    if !fresh && axis_steps(was.0) == x && axis_steps(was.1) == y {
        Seq::empty()
    } else {
        "SET "@ + name + " "@ + four_places(x) + " "@ + four_places(y) + "\n"@
    }
}

/// What a trigger adds to an update: nothing where Dolphin has it as it would be
/// written, but for the sign of a zero.
pub open spec fn trigger_text(
    fresh: bool,
    was: Reading,
    is: Reading,
    name: Seq<char>,
) -> Seq<char> {
    let (before, after) = (decimal(was.magnitude(), 10_000), decimal(is.magnitude(), 10_000));
    let sign = if is.is_negative() {
        "-"@
    } else {
        Seq::empty()
    };
    if !fresh && before == after && (after == 0 || was.is_negative() == is.is_negative()) {
        Seq::empty()
    } else {
        "SET "@ + name + " "@ + (sign + four_places(after)) + "\n"@
    }
}

proof fn lemma_stick_text(x: Reading, y: Reading)
    requires
        x.wf(),
        y.wf(),
    ensures
        steps_text(axis_steps(x), 4) == four_places(axis_steps(x)),
        steps_text(axis_steps(y), 4) == four_places(axis_steps(y)),
{
    law_an_axis_is_written_where_it_lies(x);
    law_an_axis_is_written_where_it_lies(y);
    lemma_written(axis_steps(x));
    lemma_written(axis_steps(y));
}

proof fn lemma_trigger_text(r: Reading)
    requires
        r.wf(),
    ensures
        reading_text(r, 4, false) == (if r.is_negative() {
            "-"@
        } else {
            Seq::empty()
        }) + four_places(decimal(r.magnitude(), 10_000)),
{
    reveal_with_fuel(power_of_ten, 5);
    law_a_reading_is_written_to_the_nearest_digit(r, 10_000);
    lemma_written(decimal(r.magnitude(), 10_000));
}

/// What each control adds to an update, in Dolphin's order: every field of the state
/// under its own name, as a button, a stick of two axes or a trigger. `fresh` is a
/// reader that knows nothing yet.
pub open spec fn parts(fresh: bool, p: GcState, n: GcState) -> Seq<Seq<char>> {
    seq![
        button_text(fresh, p.a, n.a, "A"@),
        button_text(fresh, p.b, n.b, "B"@),
        button_text(fresh, p.x, n.x, "X"@),
        button_text(fresh, p.y, n.y, "Y"@),
        button_text(fresh, p.z, n.z, "Z"@),
        button_text(fresh, p.start, n.start, "START"@),
        button_text(fresh, p.l, n.l, "L"@),
        button_text(fresh, p.r, n.r, "R"@),
        button_text(fresh, p.d_up, n.d_up, "D_UP"@),
        button_text(fresh, p.d_down, n.d_down, "D_DOWN"@),
        button_text(fresh, p.d_left, n.d_left, "D_LEFT"@),
        button_text(fresh, p.d_right, n.d_right, "D_RIGHT"@),
        stick_text(fresh, p.main, n.main, "MAIN"@),
        stick_text(fresh, p.c_stick, n.c_stick, "C"@),
        trigger_text(fresh, p.trigger_l, n.trigger_l, "L"@),
        trigger_text(fresh, p.trigger_r, n.trigger_r, "R"@),
    ]
}

/// The first `n` of some texts, one behind the other.
pub open spec fn joined(texts: Seq<Seq<char>>, n: int) -> Seq<char>
    decreases n,
{
    if n <= 0 {
        Seq::empty()
    } else {
        joined(texts, n - 1) + texts[n - 1]
    }
}

proof fn lemma_part(fresh: bool, p: GcState, n: GcState, i: int)
    requires
        well_formed(p),
        well_formed(n),
        0 <= i < 16,
    ensures
        parts(fresh, p, n)[i] == (if is_sent(if fresh { None } else { Some(p) }, n, i) {
            line(n, i)
        } else {
            Seq::empty()
        }),
{
    let parts = parts(fresh, p, n);
    lemma_stick_text(n.main.0, n.main.1);
    lemma_stick_text(n.c_stick.0, n.c_stick.1);
    lemma_trigger_text(n.trigger_l);
    lemma_trigger_text(n.trigger_r);
    if i == 0 {
        assert(parts[0] == button_text(fresh, p.a, n.a, "A"@));
    } else if i == 1 {
        assert(parts[1] == button_text(fresh, p.b, n.b, "B"@));
    } else if i == 2 {
        assert(parts[2] == button_text(fresh, p.x, n.x, "X"@));
    } else if i == 3 {
        assert(parts[3] == button_text(fresh, p.y, n.y, "Y"@));
    } else if i == 4 {
        assert(parts[4] == button_text(fresh, p.z, n.z, "Z"@));
    } else if i == 5 {
        assert(parts[5] == button_text(fresh, p.start, n.start, "START"@));
    } else if i == 6 {
        assert(parts[6] == button_text(fresh, p.l, n.l, "L"@));
    } else if i == 7 {
        assert(parts[7] == button_text(fresh, p.r, n.r, "R"@));
    } else if i == 8 {
        assert(parts[8] == button_text(fresh, p.d_up, n.d_up, "D_UP"@));
    } else if i == 9 {
        assert(parts[9] == button_text(fresh, p.d_down, n.d_down, "D_DOWN"@));
    } else if i == 10 {
        assert(parts[10] == button_text(fresh, p.d_left, n.d_left, "D_LEFT"@));
    } else if i == 11 {
        assert(parts[11] == button_text(fresh, p.d_right, n.d_right, "D_RIGHT"@));
    } else if i == 12 {
        assert(parts[12] == stick_text(fresh, p.main, n.main, "MAIN"@));
    } else if i == 13 {
        assert(parts[13] == stick_text(fresh, p.c_stick, n.c_stick, "C"@));
    } else if i == 14 {
        lemma_steps_alike(p.trigger_l, n.trigger_l);
        assert(parts[14] == trigger_text(fresh, p.trigger_l, n.trigger_l, "L"@));
    } else {
        lemma_steps_alike(p.trigger_r, n.trigger_r);
        assert(parts[15] == trigger_text(fresh, p.trigger_r, n.trigger_r, "R"@));
    }
}

proof fn lemma_steps_alike(was: Reading, is: Reading)
    requires
        was.wf(),
        is.wf(),
    ensures
        trigger_steps(was) == trigger_steps(is) <==> decimal(was.magnitude(), 10_000) == decimal(
            is.magnitude(),
            10_000,
        ) && (decimal(is.magnitude(), 10_000) == 0 || was.is_negative() == is.is_negative()),
{
    was.lemma_bounds();
    is.lemma_bounds();
    lemma_decimal(was.magnitude(), 10_000);
    lemma_decimal(is.magnitude(), 10_000);
}

proof fn lemma_joined(fresh: bool, p: GcState, n: GcState, i: int)
    requires
        well_formed(p),
        well_formed(n),
        0 <= i <= 16,
    ensures
        delta(if fresh { None } else { Some(p) }, n, i) == joined(parts(fresh, p, n), i),
    decreases i,
{
    if i > 0 {
        lemma_joined(fresh, p, n, i - 1);
        lemma_part(fresh, p, n, i - 1);
    }
}

/// An update is what each control adds to it, in Dolphin's order: every field of the
/// state goes out under its own name and no other.
pub proof fn law_every_control_goes_out_under_its_own_name(fresh: bool, p: GcState, n: GcState)
    requires
        well_formed(p),
        well_formed(n),
    ensures
        delta(if fresh { None } else { Some(p) }, n, CONTROLS as int) == joined(
            parts(fresh, p, n),
            16,
        ),
{
    lemma_joined(fresh, p, n, 16);
}

proof fn lemma_only_part(texts: Seq<Seq<char>>, k: int, n: int)
    requires
        0 <= n <= texts.len(),
        forall|i: int| 0 <= i < n && i != k ==> #[trigger] texts[i] == Seq::<char>::empty(),
    ensures
        joined(texts, n) == (if 0 <= k < n {
            texts[k]
        } else {
            Seq::empty()
        }),
    decreases n,
{
    if n > 0 {
        lemma_only_part(texts, k, n - 1);
    }
}

/// A control that changes alone sends its own line and no other.
pub proof fn law_a_control_that_changes_sends_its_own_line(p: GcState, n: GcState, k: int)
    requires
        well_formed(p),
        well_formed(n),
        0 <= k < 16,
        forall|i: int|
            0 <= i < 16 && i != k ==> #[trigger] parts(false, p, n)[i] == Seq::<char>::empty(),
    ensures
        delta(Some(p), n, CONTROLS as int) == parts(false, p, n)[k],
{
    lemma_joined(false, p, n, 16);
    lemma_only_part(parts(false, p, n), k, 16);
}

/// The buttons that Dolphin knows, as they are in a state.
pub open spec fn buttons(s: GcState) -> Seq<bool> {
    seq![
        s.a,
        s.b,
        s.x,
        s.y,
        s.z,
        s.start,
        s.l,
        s.r,
        s.d_up,
        s.d_down,
        s.d_left,
        s.d_right,
    ]
}

/// What Dolphin calls them.
pub open spec fn tokens() -> Seq<Seq<char>> {
    seq![
        "A"@,
        "B"@,
        "X"@,
        "Y"@,
        "Z"@,
        "START"@,
        "L"@,
        "R"@,
        "D_UP"@,
        "D_DOWN"@,
        "D_LEFT"@,
        "D_RIGHT"@,
    ]
}

proof fn lemma_button_part(p: GcState, n: GcState, i: int)
    requires
        0 <= i < 12,
    ensures
        parts(false, p, n)[i] == button_text(false, buttons(p)[i], buttons(n)[i], tokens()[i]),
{
    let (was, is) = (buttons(p), buttons(n));
    if i == 0 {
        assert(was[0] == p.a && is[0] == n.a && tokens()[0] == "A"@);
    } else if i == 1 {
        assert(was[1] == p.b && is[1] == n.b && tokens()[1] == "B"@);
    } else if i == 2 {
        assert(was[2] == p.x && is[2] == n.x && tokens()[2] == "X"@);
    } else if i == 3 {
        assert(was[3] == p.y && is[3] == n.y && tokens()[3] == "Y"@);
    } else if i == 4 {
        assert(was[4] == p.z && is[4] == n.z && tokens()[4] == "Z"@);
    } else if i == 5 {
        assert(was[5] == p.start && is[5] == n.start && tokens()[5] == "START"@);
    } else if i == 6 {
        assert(was[6] == p.l && is[6] == n.l && tokens()[6] == "L"@);
    } else if i == 7 {
        assert(was[7] == p.r && is[7] == n.r && tokens()[7] == "R"@);
    } else if i == 8 {
        assert(was[8] == p.d_up && is[8] == n.d_up && tokens()[8] == "D_UP"@);
    } else if i == 9 {
        assert(was[9] == p.d_down && is[9] == n.d_down && tokens()[9] == "D_DOWN"@);
    } else if i == 10 {
        assert(was[10] == p.d_left && is[10] == n.d_left && tokens()[10] == "D_LEFT"@);
    } else if i == 11 {
        assert(was[11] == p.d_right && is[11] == n.d_right && tokens()[11] == "D_RIGHT"@);
    }
}

/// Pressing one button, or letting it go, sends one line: that this was done, and the
/// button's own name.
pub proof fn law_a_button_sends_its_own_name(p: GcState, n: GcState, k: int)
    requires
        well_formed(p),
        well_formed(n),
        0 <= k < 12,
        forall|i: int| 0 <= i < 12 ==> (#[trigger] buttons(p)[i] != buttons(n)[i] <==> i == k),
        p.main == n.main,
        p.c_stick == n.c_stick,
        p.trigger_l == n.trigger_l,
        p.trigger_r == n.trigger_r,
    ensures
        delta(Some(p), n, CONTROLS as int) == (if buttons(n)[k] {
            "PRESS "@
        } else {
            "RELEASE "@
        }) + tokens()[k] + "\n"@,
{
    let parts = parts(false, p, n);
    assert forall|i: int| 0 <= i < 16 && i != k implies #[trigger] parts[i] == Seq::<
        char,
    >::empty() by {
        if i < 12 {
            lemma_button_part(p, n, i);
            assert(buttons(p)[i] == buttons(n)[i]);
        }
    }
    lemma_button_part(p, n, k);
    assert(buttons(p)[k] != buttons(n)[k]);
    law_a_control_that_changes_sends_its_own_line(p, n, k);
}

/// Moving one stick or one trigger sends the one line that names it.
pub proof fn law_an_axis_sends_its_own_name(p: GcState, n: GcState)
    requires
        well_formed(p),
        well_formed(n),
    ensures
        n == (GcState { main: n.main, ..p }) ==> delta(Some(p), n, CONTROLS as int) == stick_text(
            false,
            p.main,
            n.main,
            "MAIN"@,
        ),
        n == (GcState { c_stick: n.c_stick, ..p }) ==> delta(Some(p), n, CONTROLS as int)
            == stick_text(false, p.c_stick, n.c_stick, "C"@),
        n == (GcState { trigger_l: n.trigger_l, ..p }) ==> delta(Some(p), n, CONTROLS as int)
            == trigger_text(false, p.trigger_l, n.trigger_l, "L"@),
        n == (GcState { trigger_r: n.trigger_r, ..p }) ==> delta(Some(p), n, CONTROLS as int)
            == trigger_text(false, p.trigger_r, n.trigger_r, "R"@),
{
    if n == (GcState { main: n.main, ..p }) {
        law_a_control_that_changes_sends_its_own_line(p, n, 12);
    }
    if n == (GcState { c_stick: n.c_stick, ..p }) {
        law_a_control_that_changes_sends_its_own_line(p, n, 13);
    }
    if n == (GcState { trigger_l: n.trigger_l, ..p }) {
        law_a_control_that_changes_sends_its_own_line(p, n, 14);
    }
    if n == (GcState { trigger_r: n.trigger_r, ..p }) {
        law_a_control_that_changes_sends_its_own_line(p, n, 15);
    }
}

/// All buttons, as they are in a state.
pub open spec fn all_buttons(s: GcState) -> Seq<bool> {
    seq![
        s.a,
        s.b,
        s.x,
        s.y,
        s.z,
        s.start,
        s.l,
        s.r,
        s.d_up,
        s.d_down,
        s.d_left,
        s.d_right,
        s.home,
        s.capture,
        s.c_button,
    ]
}

/// What they are called.
pub open spec fn names() -> Seq<Seq<char>> {
    seq![
        "A"@,
        "B"@,
        "X"@,
        "Y"@,
        "Z"@,
        "START"@,
        "L"@,
        "R"@,
        "Up"@,
        "Down"@,
        "Left"@,
        "Right"@,
        "HOME"@,
        "CAPTURE"@,
        "C"@,
    ]
}

/// The names of those of the first `n` buttons that are on, with a space between any
/// two.
pub open spec fn listed(on: Seq<bool>, names: Seq<Seq<char>>, n: int) -> Seq<char>
    decreases n,
{
    if n <= 0 {
        Seq::empty()
    } else {
        let before = listed(on, names, n - 1);
        if !on[n - 1] {
            before
        } else if before.len() == 0 {
            names[n - 1]
        } else {
            before + " "@ + names[n - 1]
        }
    }
}

proof fn lemma_button(s: GcState, i: int)
    requires
        0 <= i < 15,
    ensures
        button_held(s, i) == all_buttons(s)[i],
        button_name(i) == names()[i],
{
    if i == 0 {
        assert(all_buttons(s)[0] == s.a && names()[0] == "A"@);
    } else if i == 1 {
        assert(all_buttons(s)[1] == s.b && names()[1] == "B"@);
    } else if i == 2 {
        assert(all_buttons(s)[2] == s.x && names()[2] == "X"@);
    } else if i == 3 {
        assert(all_buttons(s)[3] == s.y && names()[3] == "Y"@);
    } else if i == 4 {
        assert(all_buttons(s)[4] == s.z && names()[4] == "Z"@);
    } else if i == 5 {
        assert(all_buttons(s)[5] == s.start && names()[5] == "START"@);
    } else if i == 6 {
        assert(all_buttons(s)[6] == s.l && names()[6] == "L"@);
    } else if i == 7 {
        assert(all_buttons(s)[7] == s.r && names()[7] == "R"@);
    } else if i == 8 {
        assert(all_buttons(s)[8] == s.d_up && names()[8] == "Up"@);
    } else if i == 9 {
        assert(all_buttons(s)[9] == s.d_down && names()[9] == "Down"@);
    } else if i == 10 {
        assert(all_buttons(s)[10] == s.d_left && names()[10] == "Left"@);
    } else if i == 11 {
        assert(all_buttons(s)[11] == s.d_right && names()[11] == "Right"@);
    } else if i == 12 {
        assert(all_buttons(s)[12] == s.home && names()[12] == "HOME"@);
    } else if i == 13 {
        assert(all_buttons(s)[13] == s.capture && names()[13] == "CAPTURE"@);
    } else if i == 14 {
        assert(all_buttons(s)[14] == s.c_button && names()[14] == "C"@);
    }
}

proof fn lemma_listed(s: GcState, n: int)
    requires
        0 <= n <= 15,
    ensures
        held_names(s, n) == listed(all_buttons(s), names(), n),
    decreases n,
{
    if n > 0 {
        lemma_listed(s, n - 1);
        lemma_button(s, n - 1);
    }
}

/// The buttons that are held are listed by their own names.
pub proof fn law_held_buttons_are_listed_by_their_own_names(s: GcState)
    ensures
        held_names(s, SHOWN as int) == listed(all_buttons(s), names(), 15),
{
    lemma_listed(s, 15);
}

proof fn lemma_only_name(s: GcState, k: int, n: int)
    requires
        0 <= n <= 15,
        forall|i: int| 0 <= i < 15 ==> (#[trigger] all_buttons(s)[i] <==> i == k),
    ensures
        held_names(s, n) == (if 0 <= k < n {
            names()[k]
        } else {
            Seq::empty()
        }),
    decreases n,
{
    if n > 0 {
        lemma_only_name(s, k, n - 1);
        lemma_button(s, n - 1);
    }
}

/// Where one button is held, the list is its own name.
pub proof fn law_a_button_held_alone_is_listed_alone(s: GcState, k: int)
    requires
        0 <= k < 15,
        forall|i: int| 0 <= i < 15 ==> (#[trigger] all_buttons(s)[i] <==> i == k),
    ensures
        held_names(s, SHOWN as int) == names()[k],
{
    lemma_only_name(s, k, 15);
}

/// A reading as it is printed with a sign and three decimals.
pub open spec fn signed(r: Reading) -> Seq<char> {
    (if r.is_negative() {
        "-"@
    } else {
        "+"@
    }) + three_places(decimal(r.magnitude(), 1000))
}

/// A reading as it is printed with two decimals.
pub open spec fn unsigned(r: Reading) -> Seq<char> {
    (if r.is_negative() {
        "-"@
    } else {
        Seq::empty()
    }) + two_places(decimal(r.magnitude(), 100))
}

/// A button field as it is printed.
pub open spec fn hexadecimal(n: int) -> Seq<char> {
    seq![
        cipher(n / 0x1000_0000 % 16),
        cipher(n / 0x100_0000 % 16),
        cipher(n / 0x10_0000 % 16),
        cipher(n / 0x1_0000 % 16),
        cipher(n / 0x1000 % 16),
        cipher(n / 0x100 % 16),
        cipher(n / 0x10 % 16),
        cipher(n % 16),
    ]
}

/// The line that is printed shows the button field, each stick's two axes and each
/// trigger where it says it does, and the buttons that are held.
#[verifier::spinoff_prover]
pub proof fn law_the_line_shows_each_control_in_its_place(raw: RawState, s: GcState)
    requires
        well_formed(s),
    ensures
        line_text(raw, s) == "\rbtn "@ + hexadecimal(raw.buttons as int) + " main("@ + signed(
            s.main.0,
        ) + ","@ + signed(s.main.1) + ") c("@ + signed(s.c_stick.0) + ","@ + signed(s.c_stick.1)
            + ") L"@ + unsigned(s.trigger_l) + " R"@ + unsigned(s.trigger_r) + "  ["@ + held_names(
            s,
            15,
        ) + "]\x1b[K"@,
{
    lemma_signed(s.main.0);
    lemma_signed(s.main.1);
    lemma_signed(s.c_stick.0);
    lemma_signed(s.c_stick.1);
    lemma_signed(s.trigger_l);
    lemma_signed(s.trigger_r);
    lemma_hexadecimal(raw.buttons as int);
}

proof fn lemma_signed(r: Reading)
    requires
        r.wf(),
    ensures
        reading_text(r, 3, true) == signed(r),
        reading_text(r, 2, false) == unsigned(r),
{
    reveal_with_fuel(power_of_ten, 5);
    law_a_reading_is_written_to_the_nearest_digit(r, 1000);
    law_a_reading_is_written_to_the_nearest_digit(r, 100);
    lemma_written(decimal(r.magnitude(), 1000));
    lemma_written(decimal(r.magnitude(), 100));
}

proof fn lemma_hexadecimal(n: int)
    requires
        0 <= n,
    ensures
        digits(n, 16, 8) == hexadecimal(n),
{
    reveal_with_fuel(digits, 9);
    lemma_digit(n / 0x1000_0000 % 16);
    lemma_digit(n / 0x100_0000 % 16);
    lemma_digit(n / 0x10_0000 % 16);
    lemma_digit(n / 0x1_0000 % 16);
    lemma_digit(n / 0x1000 % 16);
    lemma_digit(n / 0x100 % 16);
    lemma_digit(n / 0x10 % 16);
    lemma_digit(n % 16);
    assert(digits(n, 16, 8) =~= hexadecimal(n));
}

} // verus!
