//! Characteristic UUIDs. The command and response channels are shared across
//! the whole Switch 2 family; the input report characteristic is too.
use vstd::prelude::*;

verus! {

/// Switches the proprietary protocol on.
pub const SERVICE_ENABLE: &'static str = "00c5af5d-1964-4e30-8f51-1956f96bd282";

/// Carries input reports.
pub const INPUT_REPORT: &'static str = "ab7de9be-89fe-49ad-828f-118f09df7fd2";

/// Takes command frames.
pub const COMMAND_WRITE: &'static str = "649d4ac9-8eb7-4e6c-af44-1ea54fe5f005";

/// Carries replies to command frames.
pub const COMMAND_RESPONSE: &'static str = "c765a961-d9d8-4d36-a20a-5315b111836a";

/// The value of `SERVICE_ENABLE`.
pub const SERVICE_ENABLE_ID: u128 = 0x00c5af5d_1964_4e30_8f51_1956f96bd282;

/// The value of `INPUT_REPORT`.
pub const INPUT_REPORT_ID: u128 = 0xab7de9be_89fe_49ad_828f_118f09df7fd2;

/// The value of `COMMAND_WRITE`.
pub const COMMAND_WRITE_ID: u128 = 0x649d4ac9_8eb7_4e6c_af44_1ea54fe5f005;

/// The value of `COMMAND_RESPONSE`.
pub const COMMAND_RESPONSE_ID: u128 = 0xc765a961_d9d8_4d36_a20a_5315b111836a;

} // verus!
