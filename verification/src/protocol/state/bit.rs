//! Bit positions in the report's 32-bit button field, GameCube layout.
//!
//! The right side carries both `R` (the click at the bottom of the analog pull)
//! and `Z` (the digital shoulder above it). The left side mirrors those bits,
//! but real GameCube hardware has no `ZL`, so bit 23 never fires here.
use vstd::prelude::*;

verus! {

pub const Y: u32 = 0;

pub const X: u32 = 1;

pub const B: u32 = 2;

pub const A: u32 = 3;

pub const R_CLICK: u32 = 6;

pub const Z: u32 = 7;

pub const START: u32 = 9;

pub const HOME: u32 = 12;

pub const CAPTURE: u32 = 13;

pub const C: u32 = 14;

pub const DPAD_DOWN: u32 = 16;

pub const DPAD_UP: u32 = 17;

pub const DPAD_RIGHT: u32 = 18;

pub const DPAD_LEFT: u32 = 19;

pub const L_CLICK: u32 = 22;

/// Present in the shared Switch 2 button field but unreachable on GameCube
/// hardware, which has no ZL. Recorded so the layout stays complete.
pub const ZL: u32 = 23;

} // verus!
