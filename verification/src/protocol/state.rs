//! The canonical controller state, and the GameCube view of it.
use vstd::arithmetic::power2::*;
use vstd::bits::*;
use vstd::prelude::*;

use crate::reading::Reading;

pub mod bit;

verus! {

/// One decoded input report, still in the controller's own units.
#[derive(Clone, Copy, Debug, PartialEq, Eq)]
pub struct RawState {
    /// The 32-bit button field; index it with [`bit`].
    pub buttons: u32,
    /// Left ("main") stick, 12-bit unsigned, as reported.
    pub left_stick: (u16, u16),
    /// Right ("C") stick, 12-bit unsigned, as reported.
    pub right_stick: (u16, u16),
    /// Analog trigger travel before the zero point is subtracted.
    pub trigger_l: u8,
    pub trigger_r: u8,
}

impl Default for RawState {
    fn default() -> (r: RawState)
        ensures
            r.buttons == 0,
            r.left_stick == (0u16, 0u16),
            r.right_stick == (0u16, 0u16),
            r.trigger_l == 0,
            r.trigger_r == 0,
    {
        RawState {
            buttons: 0,
            left_stick: (0, 0),
            right_stick: (0, 0),
            trigger_l: 0,
            trigger_r: 0,
        }
    }
}

/// Whether the binary digit of weight 2^bit is set in a button field.
pub open spec fn is_set(buttons: u32, bit: u32) -> bool {
    (buttons as int / pow2(bit as nat) as int) % 2 == 1
}

impl RawState {
    /// Whether the button at position `bit` is held.
    pub fn pressed(&self, bit: u32) -> (r: bool)
        requires
            bit < 32,
        ensures
            r == is_set(self.buttons, bit),
    {
        let buttons = self.buttons;
        proof {
            lemma_u32_shr_is_div(buttons, bit);
            assert(buttons & (1u32 << bit) != 0 <==> (buttons >> bit) % 2 == 1) by (bit_vector)
                requires
                    bit < 32,
            ;
        }
        buttons & (1u32 << bit) != 0
    }
}

/// Controller state after calibration, in the units a consumer wants.
///
/// Sticks are -1 to 1 with up and right positive; triggers are 0 to 1.
#[derive(Clone, Copy, Debug, PartialEq)]
pub struct GcState {
    pub a: bool,
    pub b: bool,
    pub x: bool,
    pub y: bool,
    pub z: bool,
    pub start: bool,
    /// The click at the bottom of the L trigger's travel.
    pub l: bool,
    /// The click at the bottom of the R trigger's travel.
    pub r: bool,
    pub d_up: bool,
    pub d_down: bool,
    pub d_left: bool,
    pub d_right: bool,
    /// Not a GameCube button, but there for callers to bind (Dolphin's menu, etc).
    pub home: bool,
    pub capture: bool,
    pub c_button: bool,
    pub main: (Reading, Reading),
    pub c_stick: (Reading, Reading),
    pub trigger_l: Reading,
    pub trigger_r: Reading,
}

/// Whether a state's readings are ones that a reading can be.
pub open spec fn well_formed(s: GcState) -> bool {
    &&& s.main.0.wf()
    &&& s.main.1.wf()
    &&& s.c_stick.0.wf()
    &&& s.c_stick.1.wf()
    &&& s.trigger_l.wf()
    &&& s.trigger_r.wf()
}

impl Default for GcState {
    /// A controller at rest.
    fn default() -> (s: GcState)
        ensures
            !s.a && !s.b && !s.x && !s.y && !s.z && !s.start && !s.l && !s.r,
            !s.d_up && !s.d_down && !s.d_left && !s.d_right,
            !s.home && !s.capture && !s.c_button,
            s.main.0.units() == 0 && !s.main.0.is_negative(),
            s.main.1.units() == 0 && !s.main.1.is_negative(),
            s.c_stick.0.units() == 0 && !s.c_stick.0.is_negative(),
            s.c_stick.1.units() == 0 && !s.c_stick.1.is_negative(),
            s.trigger_l.units() == 0 && !s.trigger_l.is_negative(),
            s.trigger_r.units() == 0 && !s.trigger_r.is_negative(),
    {
        let zero = Reading::zero();
        GcState {
            a: false,
            b: false,
            x: false,
            y: false,
            z: false,
            start: false,
            l: false,
            r: false,
            d_up: false,
            d_down: false,
            d_left: false,
            d_right: false,
            home: false,
            capture: false,
            c_button: false,
            main: (zero, zero),
            c_stick: (zero, zero),
            trigger_l: zero,
            trigger_r: zero,
        }
    }
}

} // verus!
