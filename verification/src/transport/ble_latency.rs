//! Requesting a faster BLE connection interval from macOS.
//!
//! The connection interval bounds wireless input latency, and the only knob an
//! unentitled process can turn is a CoreBluetooth SPI that asks for a latency
//! *class* rather than a specific interval. Nothing here can promise an
//! interval. macOS decides, and the answer is not reported in documented units —
//! so treat [`Histogram`](crate::latency::Histogram) as the measurement and this
//! module as the request.
use vstd::prelude::*;

use crate::text::{field_text, text_until_nul};

verus! {

/// How aggressively to ask macOS to schedule the link.
///
/// These mirror `CBPeripheralManagerConnectionLatency`, whose public
/// documentation describes `Low` as "prioritize rapid communication over
/// battery life". `bluetoothd` carries a fourth class beyond the public three.
#[derive(Copy, Clone, PartialEq, Eq, Debug, Structural)]
pub enum Latency {
    /// Fastest scheduling. What you want for a controller.
    Low,
    Medium,
    High,
    VeryHigh,
    /// Ask for nothing and take whatever macOS picks. Use this as the baseline
    /// when comparing histograms.
    System,
}

impl Latency {
    /// The number that stands for a class in a request.
    pub open spec fn code(self) -> int {
        match self {
            Latency::Low => 0,
            Latency::Medium => 1,
            Latency::High => 2,
            Latency::VeryHigh => 3,
            Latency::System => -1,
        }
    }

    /// The number that stands for this class in a request.
    pub fn level(self) -> (r: i32)
        ensures
            r == self.code(),
    {
        match self {
            Latency::Low => 0,
            Latency::Medium => 1,
            Latency::High => 2,
            Latency::VeryHigh => 3,
            Latency::System => -1,
        }
    }
}

/// The hooks that are installed before anything connects.
pub const CENTRAL_HOOKS: u32 = 0b011;

/// Whether both hooks that come first are installed.
pub open spec fn is_hooked(hooks: u32) -> bool {
    hooks % 2 == 1 && hooks / 2 % 2 == 1
}

/// Whether the `CBCentralManager` hooks are installed, given which hooks are.
/// The delegate hook is not counted here — it goes in on the first connect,
/// since the class does not exist until a manager is built.
pub fn hooked(hooks: u32) -> (r: bool)
    ensures
        r == is_hooked(hooks),
{
    proof {
        assert((hooks & 0b011 == 0b011) == (hooks % 2 == 1 && hooks / 2 % 2 == 1))
            by (bit_vector);
    }
    hooks & CENTRAL_HOOKS == CENTRAL_HOOKS
}

/// What the user is told before the scan.
#[derive(Copy, Clone, PartialEq, Eq, Debug, Structural)]
pub enum Note {
    /// This macOS build does not expose the SPI.
    Unsupported,
    /// CoreBluetooth could not be hooked.
    Unhooked,
}

/// What stands in the way of a request.
pub open spec fn obstacle(latency: Latency, supported: bool, hooked: bool) -> Option<Note> {
    if latency == Latency::System {
        None
    } else if !supported {
        Some(Note::Unsupported)
    } else if !hooked {
        Some(Note::Unhooked)
    } else {
        None
    }
}

/// Says what stands in the way of a request, where one is made.
pub fn note(latency: Latency, supported: bool, hooked: bool) -> (r: Option<Note>)
    ensures
        r == obstacle(latency, supported, hooked),
{
    if latency == Latency::System {
        None
    } else if !supported {
        Some(Note::Unsupported)
    } else if !hooked {
        Some(Note::Unhooked)
    } else {
        None
    }
}

/// What became of the request.
#[derive(Copy, Clone, PartialEq, Eq, Debug, Structural)]
pub enum Scheduling {
    /// No request was made.
    SystemDefault,
    /// This class was requested, and so many calls were accepted.
    Requested(Latency, i32),
    /// The request did not reach CoreBluetooth, for so many failures.
    Lost(i32),
}

/// What became of a request that was made and could not be made so many times.
pub open spec fn became(latency: Latency, applied: i32, failed: i32) -> Scheduling {
    if latency == Latency::System {
        Scheduling::SystemDefault
    } else if applied > 0 {
        Scheduling::Requested(latency, applied)
    } else {
        Scheduling::Lost(failed)
    }
}

/// Says whether the faster-interval request actually reached CoreBluetooth,
/// given how many times it was made and how many times it could not be.
///
/// Worth saying: the request is silent when it works, so without this there is
/// no way to tell a granted request from one that never left the process.
pub fn report_link(latency: Latency, applied: i32, failed: i32) -> (r: Scheduling)
    ensures
        r == became(latency, applied, failed),
{
    if latency == Latency::System {
        Scheduling::SystemDefault
    } else if applied > 0 {
        Scheduling::Requested(latency, applied)
    } else {
        Scheduling::Lost(failed)
    }
}

/// The text of the parameters in a field, where there are some.
pub open spec fn params_text(have: i32, field: Seq<u8>) -> Option<Seq<char>> {
    if have == 0 {
        None
    } else {
        Some(field_text(field))
    }
}

/// The last connection parameters CoreBluetooth reported, verbatim, out of the
/// zero-terminated field that they were written to. `have` is 0 where there are
/// none.
///
/// Given as text on purpose: the units are undocumented, so this is a hint worth
/// showing rather than a number worth trusting.
pub fn reported_params(have: i32, field: &[u8]) -> (r: Option<String>)
    ensures
        r is Some == params_text(have, field@) is Some,
        r matches Some(text) ==> Some(text@) == params_text(have, field@),
{
    if have == 0 {
        return None;
    }
    Some(text_until_nul(field))
}

/// Every class asks for a level of its own, and `System` alone for none that
/// macOS knows.
pub proof fn law_classes_are_told_apart(a: Latency, b: Latency)
    ensures
        a.code() == b.code() ==> a == b,
        a.code() < 0 <==> a == Latency::System,
{
}

} // verus!
