//! Decoding of input report 0x05.
//!
//! The wire layout is identical on both transports; only the leading offset
//! differs. Over USB the report arrives as 64 bytes with a one-byte prefix
//! ahead of the body; over BLE the notification is the 63-byte body itself.
//! Everything below is expressed relative to the body, so each transport just
//! declares where its body starts.
use vstd::prelude::*;

use crate::protocol::state::RawState;

verus! {

/// Offset of the report body within a USB bulk read.
pub const USB_BODY_OFFSET: usize = 1;

/// Offset of the report body within a BLE notification.
pub const BLE_BODY_OFFSET: usize = 0;

/// Shortest body we can decode: through the trigger bytes at 60 and 61.
pub const MIN_BODY: usize = 62;

/// Body-relative field offsets.
pub const OFF_BUTTONS: usize = 4;

pub const OFF_LEFT_STICK: usize = 10;

pub const OFF_RIGHT_STICK: usize = 13;

pub const OFF_TRIGGER_L: usize = 60;

pub const OFF_TRIGGER_R: usize = 61;

/// The first of the two 12-bit numbers in three bytes: the first byte, and the
/// low half of the second above it.
pub open spec fn first_12(b0: u8, b1: u8) -> int {
    b0 + 256 * (b1 as int % 16)
}

/// The second of the two 12-bit numbers in three bytes: the high half of the
/// second byte, and the third above it.
pub open spec fn second_12(b1: u8, b2: u8) -> int {
    b1 as int / 16 + 16 * b2
}

/// The two 12-bit numbers in the three bytes from `at` on.
pub open spec fn pair_12(d: Seq<u8>, at: int) -> (u16, u16) {
    (first_12(d[at], d[at + 1]) as u16, second_12(d[at + 1], d[at + 2]) as u16)
}

/// The 32-bit number in the four bytes from `at` on, lowest byte first.
pub open spec fn le_32(d: Seq<u8>, at: int) -> int {
    d[at] + 0x100 * d[at + 1] + 0x1_0000 * d[at + 2] + 0x100_0000 * d[at + 3]
}

/// The state that a report body describes.
pub open spec fn state_of(body: Seq<u8>) -> RawState {
    RawState {
        buttons: le_32(body, OFF_BUTTONS as int) as u32,
        left_stick: pair_12(body, OFF_LEFT_STICK as int),
        right_stick: pair_12(body, OFF_RIGHT_STICK as int),
        trigger_l: body[OFF_TRIGGER_L as int],
        trigger_r: body[OFF_TRIGGER_R as int],
    }
}

/// What a frame decodes to when its body starts at `base`: nothing if fewer
/// than [`MIN_BODY`] bytes follow.
pub open spec fn decoded(data: Seq<u8>, base: int) -> Option<RawState> {
    if data.len() < base + MIN_BODY {
        None
    } else {
        Some(state_of(data.skip(base)))
    }
}

/// Unpacks two 12-bit numbers from three bytes.
pub fn unpack_12(b0: u8, b1: u8, b2: u8) -> (r: (u16, u16))
    ensures
        r.0 == first_12(b0, b1),
        r.1 == second_12(b1, b2),
        r.0 < 4096,
        r.1 < 4096,
{
    assert((b0 as u16) | (((b1 & 0x0F) as u16) << 8u16) == b0 + 256 * (b1 % 16)) by (bit_vector);
    assert(((b1 >> 4u8) as u16) | ((b2 as u16) << 4u16) == b1 / 16 + 16 * b2) by (bit_vector);
    (
        (b0 as u16) | (((b1 & 0x0F) as u16) << 8u16),
        ((b1 >> 4u8) as u16) | ((b2 as u16) << 4u16),
    )
}

/// Unpacks two 12-bit axes from three bytes.
pub fn unpack_stick(d: &[u8], at: usize) -> (r: (u16, u16))
    requires
        at + 3 <= d@.len(),
    ensures
        r == pair_12(d@, at as int),
        r.0 == first_12(d@[at as int], d@[at + 1]),
        r.1 == second_12(d@[at + 1], d@[at + 2]),
{
    unpack_12(d[at], d[at + 1], d[at + 2])
}

/// Decodes a report body starting at `base`. Returns `None` if the frame is short.
pub fn decode(data: &[u8], base: usize) -> (r: Option<RawState>)
    ensures
        r == decoded(data@, base as int),
{
    let len = data.len();
    if base > len || len - base < MIN_BODY {
        return None;
    }
    let body = vstd::slice::slice_subrange(data, base, len);
    assert(body@ =~= data@.skip(base as int));
    Some(
        RawState {
            buttons: body[OFF_BUTTONS] as u32 + 0x100 * body[OFF_BUTTONS + 1] as u32 + 0x1_0000
                * body[OFF_BUTTONS + 2] as u32 + 0x100_0000 * body[OFF_BUTTONS + 3] as u32,
            left_stick: unpack_stick(body, OFF_LEFT_STICK),
            right_stick: unpack_stick(body, OFF_RIGHT_STICK),
            trigger_l: body[OFF_TRIGGER_L],
            trigger_r: body[OFF_TRIGGER_R],
        },
    )
}

/// Two 12-bit numbers packed into three bytes.
pub open spec fn packed_12(x: u16, y: u16) -> Seq<u8> {
    seq![
        (x as int % 256) as u8,
        (16 * (y as int % 16) + x as int / 256) as u8,
        (y as int / 16) as u8,
    ]
}

/// Packing two 12-bit numbers and unpacking them gives them back, and so does
/// unpacking three bytes and packing what they hold.
pub proof fn law_12_bit_pairs_round_trip(x: u16, y: u16, d: Seq<u8>)
    requires
        x < 4096,
        y < 4096,
        d.len() == 3,
    ensures
        pair_12(packed_12(x, y), 0) == (x, y),
        packed_12(pair_12(d, 0).0, pair_12(d, 0).1) == d,
{
    assert(packed_12(pair_12(d, 0).0, pair_12(d, 0).1) =~= d);
}

/// The body decodes alike wherever it stands in a frame: what comes before it
/// does not matter.
pub proof fn law_decoding_ignores_what_precedes_the_body(prefix: Seq<u8>, body: Seq<u8>)
    ensures
        decoded(prefix + body, prefix.len() as int) == decoded(body, 0),
{
    assert((prefix + body).skip(prefix.len() as int) =~= body);
    assert(body.skip(0) =~= body);
}

/// A body that holds a state's fields at their places decodes to that state.
pub proof fn law_a_written_body_reads_back(s: RawState, body: Seq<u8>)
    requires
        body.len() >= MIN_BODY,
        s.left_stick.0 < 4096,
        s.left_stick.1 < 4096,
        s.right_stick.0 < 4096,
        s.right_stick.1 < 4096,
        le_32(body, OFF_BUTTONS as int) == s.buttons,
        body.subrange(OFF_LEFT_STICK as int, OFF_LEFT_STICK + 3) == packed_12(
            s.left_stick.0,
            s.left_stick.1,
        ),
        body.subrange(OFF_RIGHT_STICK as int, OFF_RIGHT_STICK + 3) == packed_12(
            s.right_stick.0,
            s.right_stick.1,
        ),
        body[OFF_TRIGGER_L as int] == s.trigger_l,
        body[OFF_TRIGGER_R as int] == s.trigger_r,
    ensures
        decoded(body, 0) == Some(s),
{
    let left = body.subrange(OFF_LEFT_STICK as int, OFF_LEFT_STICK + 3);
    let right = body.subrange(OFF_RIGHT_STICK as int, OFF_RIGHT_STICK + 3);
    law_12_bit_pairs_round_trip(s.left_stick.0, s.left_stick.1, left);
    law_12_bit_pairs_round_trip(s.right_stick.0, s.right_stick.1, right);
    assert(body.skip(0) =~= body);
    assert(pair_12(left, 0) == pair_12(body, OFF_LEFT_STICK as int));
    assert(pair_12(right, 0) == pair_12(body, OFF_RIGHT_STICK as int));
}

} // verus!
