//! Decoded state as a line of text, for verifying the mapping and calibration.
use vstd::prelude::*;
use vstd::string::*;

use crate::digits::{digits, push_digits, push_reading, reading_text};
use crate::protocol::calibration::Calibration;
use crate::protocol::state::{GcState, RawState};

verus! {

/// How many buttons are shown.
pub const SHOWN: usize = 15;

/// What a button is called.
pub open spec fn button_name(i: int) -> Seq<char> {
    if i == 0 {
        "A"@
    } else if i == 1 {
        "B"@
    } else if i == 2 {
        "X"@
    } else if i == 3 {
        "Y"@
    } else if i == 4 {
        "Z"@
    } else if i == 5 {
        "START"@
    } else if i == 6 {
        "L"@
    } else if i == 7 {
        "R"@
    } else if i == 8 {
        "Up"@
    } else if i == 9 {
        "Down"@
    } else if i == 10 {
        "Left"@
    } else if i == 11 {
        "Right"@
    } else if i == 12 {
        "HOME"@
    } else if i == 13 {
        "CAPTURE"@
    } else {
        "C"@
    }
}

/// Whether a button is held.
pub open spec fn button_held(s: GcState, i: int) -> bool {
    if i == 0 {
        s.a
    } else if i == 1 {
        s.b
    } else if i == 2 {
        s.x
    } else if i == 3 {
        s.y
    } else if i == 4 {
        s.z
    } else if i == 5 {
        s.start
    } else if i == 6 {
        s.l
    } else if i == 7 {
        s.r
    } else if i == 8 {
        s.d_up
    } else if i == 9 {
        s.d_down
    } else if i == 10 {
        s.d_left
    } else if i == 11 {
        s.d_right
    } else if i == 12 {
        s.home
    } else if i == 13 {
        s.capture
    } else {
        s.c_button
    }
}

/// The names of those of the first `n` buttons that are held, with a space
/// between any two.
pub open spec fn held_names(s: GcState, n: int) -> Seq<char>
    decreases n,
{
    if n <= 0 {
        Seq::empty()
    } else {
        let before = held_names(s, n - 1);
        if !button_held(s, n - 1) {
            before
        } else if before.len() == 0 {
            button_name(n - 1)
        } else {
            before + " "@ + button_name(n - 1)
        }
    }
}

/// The line for a raw state and its calibrated view.
pub open spec fn line_text(raw: RawState, s: GcState) -> Seq<char> {
    "\rbtn "@ + digits(raw.buttons as int, 16, 8) + " main("@ + reading_text(s.main.0, 3, true)
        + ","@ + reading_text(s.main.1, 3, true) + ") c("@ + reading_text(s.c_stick.0, 3, true)
        + ","@ + reading_text(s.c_stick.1, 3, true) + ") L"@ + reading_text(s.trigger_l, 2, false)
        + " R"@ + reading_text(s.trigger_r, 2, false) + "  ["@ + held_names(s, SHOWN as int)
        + "]\x1b[K"@
}

fn name_of(i: usize) -> (r: &'static str)
    requires
        i < SHOWN,
    ensures
        r@ == button_name(i as int),
{
    match i {
        0 => "A",
        1 => "B",
        2 => "X",
        3 => "Y",
        4 => "Z",
        5 => "START",
        6 => "L",
        7 => "R",
        8 => "Up",
        9 => "Down",
        10 => "Left",
        11 => "Right",
        12 => "HOME",
        13 => "CAPTURE",
        _ => "C",
    }
}

fn is_held(s: &GcState, i: usize) -> (r: bool)
    requires
        i < SHOWN,
    ensures
        r == button_held(*s, i as int),
{
    match i {
        0 => s.a,
        1 => s.b,
        2 => s.x,
        3 => s.y,
        4 => s.z,
        5 => s.start,
        6 => s.l,
        7 => s.r,
        8 => s.d_up,
        9 => s.d_down,
        10 => s.d_left,
        11 => s.d_right,
        12 => s.home,
        13 => s.capture,
        _ => s.c_button,
    }
}

/// The names of the buttons that are held, with a space between any two.
pub fn held(s: &GcState) -> (r: String)
    ensures
        r@ == held_names(*s, SHOWN as int),
{
    let mut names = String::new();
    for i in 0..SHOWN
        invariant
            names@ == held_names(*s, i as int),
    {
        if is_held(s, i) {
            if !names.as_str().is_empty() {
                names.append(" ");
            }
            names.append(name_of(i));
            assert(names@ =~= held_names(*s, i + 1));
        }
    }
    names
}

/// The line for a raw state under a calibration.
pub fn dump(raw: &RawState, cal: &Calibration) -> (r: String)
    ensures
        exists|s: GcState| #[trigger] cal.applies(*raw, s) && r@ == line_text(*raw, s),
{
    let s = cal.apply(raw);
    state_line(raw, &s)
}

/// The line for a raw state and its calibrated view.
pub fn state_line(raw: &RawState, s: &GcState) -> (r: String)
    ensures
        r@ == line_text(*raw, *s),
{
    let mut out = String::new();
    out.append("\rbtn ");
    push_digits(&mut out, raw.buttons, 16, 8);
    out.append(" main(");
    push_reading(&mut out, s.main.0, 3, true);
    out.append(",");
    push_reading(&mut out, s.main.1, 3, true);
    out.append(") c(");
    push_reading(&mut out, s.c_stick.0, 3, true);
    out.append(",");
    push_reading(&mut out, s.c_stick.1, 3, true);
    out.append(") L");
    push_reading(&mut out, s.trigger_l, 2, false);
    out.append(" R");
    push_reading(&mut out, s.trigger_r, 2, false);
    out.append("  [");
    let names = held(s);
    out.append(names.as_str());
    out.append("]\x1b[K");
    assert(out@ =~= line_text(*raw, *s));
    out
}

} // verus!
