//! Flash blocks worth reading. Each read returns 0x40 bytes.
use vstd::prelude::*;

verus! {

/// Serial number, 17 bytes at +2.
pub const SERIAL: u32 = 0x0001_3000;

/// Factory left-stick calibration at +0x28.
pub const LEFT_STICK: u32 = 0x0001_3080;

/// Factory right-stick calibration at +0x28.
pub const RIGHT_STICK: u32 = 0x0001_30C0;

/// GameCube trigger zero points: left at +0, right at +1.
pub const TRIGGER_ZEROS: u32 = 0x0001_3140;

/// User left-stick calibration, guarded by a magic prefix.
pub const USER_LEFT_STICK: u32 = 0x001F_C040;

/// User right-stick calibration, guarded by a magic prefix.
pub const USER_RIGHT_STICK: u32 = 0x001F_C080;

} // verus!
