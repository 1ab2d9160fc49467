//! Factory and user calibration, read out of the controller's SPI flash.
//!
//! Without this the sticks sit off-centre and never reach the corners, and the
//! triggers report a non-zero resting value. Dolphin notices both immediately.
use vstd::arithmetic::power2::*;
use vstd::prelude::*;

use crate::protocol::report::{first_12, second_12, unpack_12};
use crate::protocol::state::{bit, is_set, well_formed, GcState, RawState};
use crate::reading::{rescaled, Reading};
use crate::rounding::{clamp, lemma_quotient_of_whole, one, quotient};
use crate::text::{field_text, text_until_nul, trim, trimmed};

pub mod addr;
pub mod contents;
pub mod laws;

verus! {

/// Offset of the factory stick block inside a flash read.
pub const FACTORY_STICK_OFFSET: usize = 0x28;

/// User calibration blocks start with this magic, then the same 9-byte layout.
pub const USER_MAGIC: [u8; 2] = [0xB2, 0xA1];

/// A trigger reads 0xE8 at full pull regardless of where its zero sits.
pub const TRIGGER_FULL: u8 = 232;

/// Bytes in a packed stick calibration.
pub const STICK_BYTES: usize = 9;

/// Per-axis calibration: a centre and an asymmetric range either side of it.
#[derive(Clone, Copy, Debug, Default, PartialEq, Eq, Structural)]
pub struct AxisCal {
    pub neutral: u16,
    pub max: u16,
    pub min: u16,
}

impl AxisCal {
    /// Calibration is only usable if every field was populated.
    pub open spec fn usable(self) -> bool {
        self.neutral != 0 && self.min != 0 && self.max != 0
    }

    /// How far a raw reading lies from the centre. Uncalibrated, the centre is
    /// that of a 12-bit range.
    pub open spec fn offset(self, raw: u16) -> int {
        if self.usable() {
            raw - self.neutral
        } else {
            raw - 2048
        }
    }

    /// How far from the centre full scale lies, on the side that `raw` is on.
    /// Uncalibrated, both sides reach as far as the top of a 12-bit range.
    pub open spec fn reach(self, raw: u16) -> int {
        if !self.usable() {
            2047
        } else if self.offset(raw) < 0 {
            self.min as int
        } else {
            self.max as int
        }
    }

    /// The calibrated value of a raw reading: its share of the range on its
    /// side, held between -1 and 1.
    pub open spec fn value(self, raw: u16) -> int {
        clamp(quotient(self.offset(raw) * one(), self.reach(raw) * one()), -one(), one())
    }

    /// Calibration is only usable if every field was populated.
    pub fn is_valid(&self) -> (r: bool)
        ensures
            r == self.usable(),
    {
        self.neutral != 0 && self.min != 0 && self.max != 0
    }

    /// Maps a raw axis reading to -1 to 1.
    pub fn apply(&self, raw: u16) -> (r: Reading)
        ensures
            r.units() == self.value(raw),
            r.is_negative() == (self.offset(raw) < 0),
    {
        if !self.is_valid() {
            // Uncalibrated fallback: assume a symmetric 12-bit range centred on
            // 2048. Dividing by 2047 rather than 2048 keeps the centre exact
            // while still letting the top of the range reach full scale.
            return Reading::ratio(raw as i32 - 2048, 2047);
        }
        let v: i32 = raw as i32 - self.neutral as i32;
        if v < 0 {
            Reading::ratio(v, self.min as u32)
        } else {
            Reading::ratio(v, self.max as u32)
        }
    }
}

/// Both axes of one stick.
#[derive(Clone, Copy, Debug, Default, PartialEq, Eq, Structural)]
pub struct StickCal {
    pub x: AxisCal,
    pub y: AxisCal,
}

/// The calibration in a packed blob: three 12-bit pairs, in the order neutral,
/// max, min. Nothing if the blob is short.
pub open spec fn stick_cal(d: Seq<u8>) -> Option<StickCal> {
    if d.len() < STICK_BYTES {
        None
    } else {
        Some(
            StickCal {
                x: AxisCal {
                    neutral: first_12(d[0], d[1]) as u16,
                    max: first_12(d[3], d[4]) as u16,
                    min: first_12(d[6], d[7]) as u16,
                },
                y: AxisCal {
                    neutral: second_12(d[1], d[2]) as u16,
                    max: second_12(d[4], d[5]) as u16,
                    min: second_12(d[7], d[8]) as u16,
                },
            },
        )
    }
}

impl StickCal {
    /// Parses the packed 9-byte calibration blob: three 12-bit pairs, in the
    /// order neutral, max, min.
    pub fn parse(d: &[u8]) -> (r: Option<StickCal>)
        ensures
            r == stick_cal(d@),
    {
        if d.len() < STICK_BYTES {
            return None;
        }
        let (nx, ny) = unpack_12(d[0], d[1], d[2]);
        let (mx, my) = unpack_12(d[3], d[4], d[5]);
        let (ix, iy) = unpack_12(d[6], d[7], d[8]);
        Some(
            StickCal {
                x: AxisCal { neutral: nx, max: mx, min: ix },
                y: AxisCal { neutral: ny, max: my, min: iy },
            },
        )
    }
}

/// Everything we read out of flash for one controller.
#[derive(Debug)]
pub struct Calibration {
    pub serial: Option<String>,
    pub left: StickCal,
    pub right: StickCal,
    pub trigger_l_zero: u8,
    pub trigger_r_zero: u8,
    /// Inverts each stick's Y axis so up is positive.
    pub invert_left_y: bool,
    pub invert_right_y: bool,
    /// Travel below this fraction reads as fully released.
    ///
    /// A trigger rests a count or two above its stored zero point, so without
    /// this the controller reports a permanent ~1% pull and Dolphin sees a
    /// trigger that is never quite let go.
    pub trigger_deadzone: Reading,
}

/// The text that an optional string holds.
pub open spec fn text_of(s: Option<String>) -> Option<Seq<char>> {
    match s {
        Some(s) => Some(s@),
        None => None,
    }
}

/// The serial number once a block was read: the text in the serial block, where
/// there is any.
pub open spec fn serial_after(
    serial: Option<Seq<char>>,
    address: u32,
    block: Seq<u8>,
) -> Option<Seq<char>> {
    if address == addr::SERIAL && block.len() >= 0x13 {
        let text = trimmed(field_text(block.subrange(2, 0x13)));
        if text.len() > 0 {
            Some(text)
        } else {
            serial
        }
    } else {
        serial
    }
}

/// What a factory block says of a stick.
pub open spec fn factory_stick(block: Seq<u8>) -> Option<StickCal> {
    if block.len() < FACTORY_STICK_OFFSET {
        None
    } else {
        stick_cal(block.skip(FACTORY_STICK_OFFSET as int))
    }
}

/// What a user block says of a stick: nothing without the magic.
pub open spec fn user_stick(block: Seq<u8>) -> Option<StickCal> {
    if block.len() < 2 || block[0] != 0xB2 || block[1] != 0xA1 {
        None
    } else {
        stick_cal(block.skip(2))
    }
}

/// A stick's calibration once a block was read, given where its factory and its
/// user block stand.
pub open spec fn stick_after(
    stick: StickCal,
    factory: u32,
    user: u32,
    address: u32,
    block: Seq<u8>,
) -> StickCal {
    let read = if address == factory {
        factory_stick(block)
    } else if address == user {
        user_stick(block)
    } else {
        None
    };
    match read {
        Some(c) => c,
        None => stick,
    }
}

/// A trigger's zero point once a block was read.
pub open spec fn zero_after(zero: u8, index: int, address: u32, block: Seq<u8>) -> u8 {
    if address == addr::TRIGGER_ZEROS && block.len() >= 2 {
        block[index]
    } else {
        zero
    }
}

/// The travel of a trigger from its zero point to full pull, between 0 and 1. A
/// zero point at or past full pull leaves none.
pub open spec fn travel(zero: u8, raw: u8) -> int {
    let span = TRIGGER_FULL - zero;
    if span <= 0 {
        0
    } else {
        clamp(quotient((raw - zero) * one(), span * one()), 0, one())
    }
}

/// What a trigger reads: its travel, with the deadzone taken out.
pub open spec fn trigger_value(zero: u8, deadzone: int, raw: u8) -> int {
    rescaled(travel(zero, raw), deadzone)
}

/// The blocks to request during initialisation, in order.
pub open spec fn blocks() -> Seq<u32> {
    seq![
        addr::SERIAL,
        addr::LEFT_STICK,
        addr::RIGHT_STICK,
        addr::TRIGGER_ZEROS,
        addr::USER_LEFT_STICK,
        addr::USER_RIGHT_STICK,
    ]
}

/// What one flash block changes: its own part of the calibration, where it holds
/// one, and nothing else.
pub open spec fn absorbs(
    before: Calibration,
    after: Calibration,
    address: u32,
    block: Seq<u8>,
) -> bool {
    &&& text_of(after.serial) == serial_after(text_of(before.serial), address, block)
    &&& after.left == stick_after(
        before.left,
        addr::LEFT_STICK,
        addr::USER_LEFT_STICK,
        address,
        block,
    )
    &&& after.right == stick_after(
        before.right,
        addr::RIGHT_STICK,
        addr::USER_RIGHT_STICK,
        address,
        block,
    )
    &&& after.trigger_l_zero == zero_after(before.trigger_l_zero, 0, address, block)
    &&& after.trigger_r_zero == zero_after(before.trigger_r_zero, 1, address, block)
    &&& after.invert_left_y == before.invert_left_y
    &&& after.invert_right_y == before.invert_right_y
    &&& after.trigger_deadzone == before.trigger_deadzone
}

impl Clone for Calibration {
    fn clone(&self) -> (r: Calibration)
        ensures
            r == *self,
    {
        Calibration {
            serial: match &self.serial {
                Some(s) => Some(s.clone()),
                None => None,
            },
            left: self.left,
            right: self.right,
            trigger_l_zero: self.trigger_l_zero,
            trigger_r_zero: self.trigger_r_zero,
            invert_left_y: self.invert_left_y,
            invert_right_y: self.invert_right_y,
            trigger_deadzone: self.trigger_deadzone,
        }
    }
}

/// Whether nothing has been read yet, and nothing asked for.
pub open spec fn is_blank(c: Calibration) -> bool {
    let axis = AxisCal { neutral: 0, max: 0, min: 0 };
    &&& c.serial is None
    &&& c.left == (StickCal { x: axis, y: axis })
    &&& c.right == (StickCal { x: axis, y: axis })
    &&& c.trigger_l_zero == 0
    &&& c.trigger_r_zero == 0
    &&& !c.invert_left_y
    &&& !c.invert_right_y
    &&& c.trigger_deadzone.units() == 0
    &&& !c.trigger_deadzone.is_negative()
}

impl Default for Calibration {
    /// Nothing read yet.
    fn default() -> (r: Calibration)
        ensures
            is_blank(r),
    {
        let axis = AxisCal { neutral: 0, max: 0, min: 0 };
        let stick = StickCal { x: axis, y: axis };
        Calibration {
            serial: None,
            left: stick,
            right: stick,
            trigger_l_zero: 0,
            trigger_r_zero: 0,
            invert_left_y: false,
            invert_right_y: false,
            trigger_deadzone: Reading::zero(),
        }
    }
}

impl Calibration {
    /// Blocks to request during initialisation, in order.
    pub const BLOCKS: [u32; 6] = [
        addr::SERIAL,
        addr::LEFT_STICK,
        addr::RIGHT_STICK,
        addr::TRIGGER_ZEROS,
        addr::USER_LEFT_STICK,
        addr::USER_RIGHT_STICK,
    ];

    /// Feeds one flash block in. `block` is the 0x40 bytes of payload.
    ///
    /// Unreadable or absent blocks are simply skipped: the driver still runs,
    /// just on the uncalibrated fallback path.
    pub fn absorb(&mut self, address: u32, block: &[u8])
        ensures
            absorbs(*old(self), *final(self), address, block@),
    {
        let len = block.len();
        if address == addr::SERIAL {
            if len >= 0x13 {
                let raw = vstd::slice::slice_subrange(block, 2, 0x13);
                let text = text_until_nul(raw);
                let s = trim(text.as_str());
                if !s.as_str().is_empty() {
                    self.serial = Some(s);
                }
            }
        } else if address == addr::LEFT_STICK {
            if let Some(c) = Self::factory(block) {
                self.left = c;
            }
        } else if address == addr::RIGHT_STICK {
            if let Some(c) = Self::factory(block) {
                self.right = c;
            }
        } else if address == addr::TRIGGER_ZEROS {
            if len >= 2 {
                self.trigger_l_zero = block[0];
                self.trigger_r_zero = block[1];
            }
        } else if address == addr::USER_LEFT_STICK {
            // User calibration overrides the factory values, but only when the
            // magic is present: an unwritten block is all zeroes or all 0xFF.
            if let Some(c) = Self::user(block) {
                self.left = c;
            }
        } else if address == addr::USER_RIGHT_STICK {
            if let Some(c) = Self::user(block) {
                self.right = c;
            }
        }
    }

    fn factory(block: &[u8]) -> (r: Option<StickCal>)
        ensures
            r == factory_stick(block@),
    {
        let len = block.len();
        if len < FACTORY_STICK_OFFSET {
            return None;
        }
        let rest = vstd::slice::slice_subrange(block, FACTORY_STICK_OFFSET, len);
        assert(rest@ =~= block@.skip(FACTORY_STICK_OFFSET as int));
        StickCal::parse(rest)
    }

    fn user(block: &[u8]) -> (r: Option<StickCal>)
        ensures
            r == user_stick(block@),
    {
        let len = block.len();
        if len < 2 || block[0] != USER_MAGIC[0] || block[1] != USER_MAGIC[1] {
            return None;
        }
        let rest = vstd::slice::slice_subrange(block, 2, len);
        assert(rest@ =~= block@.skip(2));
        StickCal::parse(rest)
    }

    /// Maps an analog trigger byte to 0 to 1, taking out its resting offset.
    ///
    /// The deadzone is rescaled rather than subtracted, so a fully pulled
    /// trigger still reaches exactly 1.
    pub fn trigger(zero: u8, deadzone: Reading, raw: u8) -> (r: Reading)
        ensures
            r.units() == trigger_value(zero, deadzone.units(), raw),
            !r.is_negative(),
    {
        if zero >= TRIGGER_FULL {
            proof {
                lemma_pow2_pos(149);
            }
            return Reading::zero();
        }
        let span: u32 = (TRIGGER_FULL - zero) as u32;
        let past: i32 = raw as i32 - zero as i32;
        let v = if past < 0 {
            Reading::zero()
        } else {
            Reading::ratio(past, span)
        };
        proof {
            lemma_quotient_of_whole(past as int, span as int);
            lemma_pow2_pos(149);
        }
        v.past_deadzone(deadzone)
    }

    /// What a raw report means under this calibration.
    pub open spec fn applies(self, raw: RawState, s: GcState) -> bool {
        &&& well_formed(s)
        &&& s.a == is_set(raw.buttons, bit::A)
        &&& s.b == is_set(raw.buttons, bit::B)
        &&& s.x == is_set(raw.buttons, bit::X)
        &&& s.y == is_set(raw.buttons, bit::Y)
        &&& s.z == is_set(raw.buttons, bit::Z)
        &&& s.start == is_set(raw.buttons, bit::START)
        &&& s.l == is_set(raw.buttons, bit::L_CLICK)
        &&& s.r == is_set(raw.buttons, bit::R_CLICK)
        &&& s.d_up == is_set(raw.buttons, bit::DPAD_UP)
        &&& s.d_down == is_set(raw.buttons, bit::DPAD_DOWN)
        &&& s.d_left == is_set(raw.buttons, bit::DPAD_LEFT)
        &&& s.d_right == is_set(raw.buttons, bit::DPAD_RIGHT)
        &&& s.home == is_set(raw.buttons, bit::HOME)
        &&& s.capture == is_set(raw.buttons, bit::CAPTURE)
        &&& s.c_button == is_set(raw.buttons, bit::C)
        &&& s.main.0.units() == self.left.x.value(raw.left_stick.0)
        &&& s.main.0.is_negative() == (self.left.x.offset(raw.left_stick.0) < 0)
        &&& s.main.1.units() == flipped(self.left.y.value(raw.left_stick.1), self.invert_left_y)
        &&& s.main.1.is_negative() == ((self.left.y.offset(raw.left_stick.1) < 0)
            != self.invert_left_y)
        &&& s.c_stick.0.units() == self.right.x.value(raw.right_stick.0)
        &&& s.c_stick.0.is_negative() == (self.right.x.offset(raw.right_stick.0) < 0)
        &&& s.c_stick.1.units() == flipped(
            self.right.y.value(raw.right_stick.1),
            self.invert_right_y,
        )
        &&& s.c_stick.1.is_negative() == ((self.right.y.offset(raw.right_stick.1) < 0)
            != self.invert_right_y)
        &&& s.trigger_l.units() == trigger_value(
            self.trigger_l_zero,
            self.trigger_deadzone.units(),
            raw.trigger_l,
        )
        &&& !s.trigger_l.is_negative()
        &&& s.trigger_r.units() == trigger_value(
            self.trigger_r_zero,
            self.trigger_deadzone.units(),
            raw.trigger_r,
        )
        &&& !s.trigger_r.is_negative()
    }

    /// Turns a raw report into the calibrated GameCube view.
    pub fn apply(&self, raw: &RawState) -> (s: GcState)
        ensures
            self.applies(*raw, s),
    {
        let lx = self.left.x.apply(raw.left_stick.0);
        let mut ly = self.left.y.apply(raw.left_stick.1);
        if self.invert_left_y {
            ly = ly.negated();
        }
        let rx = self.right.x.apply(raw.right_stick.0);
        let mut ry = self.right.y.apply(raw.right_stick.1);
        if self.invert_right_y {
            ry = ry.negated();
        }
        let trigger_l = Self::trigger(self.trigger_l_zero, self.trigger_deadzone, raw.trigger_l);
        let trigger_r = Self::trigger(self.trigger_r_zero, self.trigger_deadzone, raw.trigger_r);
        proof {
            use_type_invariant(&lx);
            use_type_invariant(&ly);
            use_type_invariant(&rx);
            use_type_invariant(&ry);
            use_type_invariant(&trigger_l);
            use_type_invariant(&trigger_r);
        }
        GcState {
            a: raw.pressed(bit::A),
            b: raw.pressed(bit::B),
            x: raw.pressed(bit::X),
            y: raw.pressed(bit::Y),
            z: raw.pressed(bit::Z),
            start: raw.pressed(bit::START),
            l: raw.pressed(bit::L_CLICK),
            r: raw.pressed(bit::R_CLICK),
            d_up: raw.pressed(bit::DPAD_UP),
            d_down: raw.pressed(bit::DPAD_DOWN),
            d_left: raw.pressed(bit::DPAD_LEFT),
            d_right: raw.pressed(bit::DPAD_RIGHT),
            home: raw.pressed(bit::HOME),
            capture: raw.pressed(bit::CAPTURE),
            c_button: raw.pressed(bit::C),
            main: (lx, ly),
            c_stick: (rx, ry),
            trigger_l,
            trigger_r,
        }
    }
}

/// A vertical axis, flipped if asked for.
pub open spec fn flipped(v: int, invert: bool) -> int {
    if invert {
        -v
    } else {
        v
    }
}

} // verus!
