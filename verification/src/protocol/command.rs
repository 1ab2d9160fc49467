//! SW2 command frames.
//!
//! Every command, over USB bulk or over the BLE command characteristic, uses
//! the same 8-byte header:
//!
//! ```text
//! 0  cmd        command code
//! 1  type       0x91 request, 0x01 response, 0x00 error
//! 2  interface  0x00 USB, 0x01 BLE
//! 3  subcmd     subcommand code
//! 4  ..
//! 5  len        payload length; total frame is len + 8
//! 6  ..
//! 7  ..
//! 8+ payload
//! ```
//!
//! The frames below are what a real Switch 2 was captured sending. Several have
//! no known purpose; they are sent anyway, because the controller does not start
//! streaming without the full sequence.
use vstd::prelude::*;

use crate::protocol::report::le_32;

verus! {

/// Transport identifier that goes in header byte 2.
#[derive(Clone, Copy, PartialEq, Eq, Debug, Structural)]
pub enum Iface {
    Usb,
    Ble,
}

/// The byte that stands for a transport in a frame's header.
pub open spec fn iface_code(iface: Iface) -> u8 {
    match iface {
        Iface::Usb => 0x00,
        Iface::Ble => 0x01,
    }
}

impl Iface {
    /// The byte that stands for this transport in a frame's header.
    pub fn code(self) -> (r: u8)
        ensures
            r == iface_code(self),
    {
        match self {
            Iface::Usb => 0x00,
            Iface::Ble => 0x01,
        }
    }
}

/// A frame with its interface byte set, where it is long enough to have one.
pub open spec fn addressed(frame: Seq<u8>, iface: Iface) -> Seq<u8> {
    if frame.len() > 2 {
        frame.update(2, iface_code(iface))
    } else {
        frame
    }
}

/// Rewrites the interface byte of a frame so one table serves both transports.
pub fn with_iface(frame: &[u8], iface: Iface) -> (out: Vec<u8>)
    ensures
        out@ == addressed(frame@, iface),
{
    let mut out = vstd::slice::slice_to_vec(frame);
    if out.len() > 2 {
        out.set(2, iface.code());
    }
    out
}

/// The length that a frame declares, or the bytes there are where those are fewer.
pub open spec fn declared_len(frame: Seq<u8>) -> int {
    if frame.len() < 6 || frame.len() < frame[5] + 8 {
        frame.len() as int
    } else {
        frame[5] + 8
    }
}

/// A frame's declared total length: payload length (byte 5) plus the 8-byte header.
///
/// The frames below are already exactly this long, but the controller is
/// strict about it, so we compute rather than trust the slice's own length.
pub fn frame_len(frame: &[u8]) -> (r: usize)
    ensures
        r == declared_len(frame@),
        r <= frame@.len(),
{
    let len = frame.len();
    if len < 6 {
        return len;
    }
    let declared: usize = frame[5] as usize + 8;
    if declared < len {
        declared
    } else {
        len
    }
}

/// The bytes of a frame that go on the wire: as many as it declares.
pub open spec fn wired(frame: Seq<u8>) -> Seq<u8> {
    frame.take(declared_len(frame))
}

/// The bytes of a frame that go on the wire.
pub fn on_wire(frame: &[u8]) -> (r: &[u8])
    ensures
        r@ == wired(frame@),
{
    let len = frame_len(frame);
    let r = vstd::slice::slice_subrange(frame, 0, len);
    assert(r@ =~= wired(frame@));
    r
}

/// The initialisation sequence, in order. Nothing streams until all of it lands.
///
/// Interface bytes are written as USB (`0x00`).
pub open spec fn init_frames() -> Seq<Seq<u8>> {
    seq![
        // Unknown purpose.
        seq![0x07u8, 0x91, 0x00, 0x01, 0x00, 0x00, 0x00, 0x00],
        // Set feature output bit mask.
        seq![0x0cu8, 0x91, 0x00, 0x02, 0x00, 0x04, 0x00, 0x00, 0x27, 0x00, 0x00, 0x00],
        // Unknown purpose.
        seq![0x11u8, 0x91, 0x00, 0x01, 0x00, 0x00, 0x00, 0x00],
        // Set rumble data. Purpose unconfirmed, but it appears in every capture
        // of the console's own init.
        seq![
            0x0au8, 0x91, 0x00, 0x08, 0x00, 0x14, 0x00, 0x00,
            0x01, 0xff, 0xff, 0xff, 0xff, 0xff, 0xff, 0xff,
            0xff, 0x35, 0x00, 0x46, 0x00, 0x00, 0x00, 0x00,
            0x00, 0x00, 0x00, 0x00,
        ],
        // Enable feature output bits.
        seq![0x0cu8, 0x91, 0x00, 0x04, 0x00, 0x04, 0x00, 0x00, 0x27, 0x00, 0x00, 0x00],
        // Unknown purpose.
        seq![0x01u8, 0x91, 0x00, 0x0c, 0x00, 0x00, 0x00, 0x00],
        // Enable rumble.
        seq![0x01u8, 0x91, 0x00, 0x01, 0x00, 0x00, 0x00, 0x00],
        // Enable grip buttons on the charging grip.
        seq![0x08u8, 0x91, 0x00, 0x02, 0x00, 0x04, 0x00, 0x00, 0x01, 0x00, 0x00, 0x00],
        // Set report format to report 0x05.
        seq![0x03u8, 0x91, 0x00, 0x0a, 0x00, 0x04, 0x00, 0x00, 0x05, 0x00, 0x00, 0x00],
        // Start output.
        seq![
            0x03u8, 0x91, 0x00, 0x0d, 0x00, 0x08, 0x00, 0x00,
            0x01, 0x00, 0xff, 0xff, 0xff, 0xff, 0xff, 0xff,
        ],
    ]
}

/// Number of frames in the initialisation sequence.
pub const INIT_FRAMES: usize = 10;

/// One frame of the initialisation sequence, with the interface byte of USB.
pub fn init_frame(index: usize) -> (r: Vec<u8>)
    requires
        index < INIT_FRAMES,
    ensures
        r@ == init_frames()[index as int],
{
    match index {
        0 => vec![0x07, 0x91, 0x00, 0x01, 0x00, 0x00, 0x00, 0x00],
        1 => vec![0x0c, 0x91, 0x00, 0x02, 0x00, 0x04, 0x00, 0x00, 0x27, 0x00, 0x00, 0x00],
        2 => vec![0x11, 0x91, 0x00, 0x01, 0x00, 0x00, 0x00, 0x00],
        3 => vec![
            0x0a, 0x91, 0x00, 0x08, 0x00, 0x14, 0x00, 0x00,
            0x01, 0xff, 0xff, 0xff, 0xff, 0xff, 0xff, 0xff,
            0xff, 0x35, 0x00, 0x46, 0x00, 0x00, 0x00, 0x00,
            0x00, 0x00, 0x00, 0x00,
        ],
        4 => vec![0x0c, 0x91, 0x00, 0x04, 0x00, 0x04, 0x00, 0x00, 0x27, 0x00, 0x00, 0x00],
        5 => vec![0x01, 0x91, 0x00, 0x0c, 0x00, 0x00, 0x00, 0x00],
        6 => vec![0x01, 0x91, 0x00, 0x01, 0x00, 0x00, 0x00, 0x00],
        7 => vec![0x08, 0x91, 0x00, 0x02, 0x00, 0x04, 0x00, 0x00, 0x01, 0x00, 0x00, 0x00],
        8 => vec![0x03, 0x91, 0x00, 0x0a, 0x00, 0x04, 0x00, 0x00, 0x05, 0x00, 0x00, 0x00],
        _ => vec![
            0x03, 0x91, 0x00, 0x0d, 0x00, 0x08, 0x00, 0x00,
            0x01, 0x00, 0xff, 0xff, 0xff, 0xff, 0xff, 0xff,
        ],
    }
}

/// The whole initialisation sequence, in order, with the interface byte of USB.
pub fn init_sequence() -> (r: Vec<Vec<u8>>)
    ensures
        r@.len() == init_frames().len(),
        forall|i: int| 0 <= i < r@.len() ==> #[trigger] r@[i]@ == init_frames()[i],
{
    let mut r: Vec<Vec<u8>> = Vec::new();
    for i in 0..INIT_FRAMES
        invariant
            r@.len() == i,
            forall|j: int| 0 <= j < i ==> #[trigger] r@[j]@ == init_frames()[j],
    {
        r.push(init_frame(i));
    }
    r
}

/// The byte of weight 256^i in a number.
pub open spec fn byte_of(n: u32, i: nat) -> u8 {
    if i == 0 {
        (n as int % 256) as u8
    } else if i == 1 {
        ((n as int / 0x100) % 256) as u8
    } else if i == 2 {
        ((n as int / 0x1_0000) % 256) as u8
    } else {
        (n as int / 0x100_0000) as u8
    }
}

/// The request that reads flash at `address`.
pub open spec fn flash_request(address: u32, iface: Iface) -> Seq<u8> {
    seq![
        0x02u8, 0x91, iface_code(iface), 0x01, 0x00, 0x08, 0x00, 0x00,
        0x00, 0x00, 0x00, 0x00,
        byte_of(address, 0), byte_of(address, 1), byte_of(address, 2), byte_of(address, 3),
    ]
}

/// Builds an SPI flash read for `address`. The reply carries 0x40 bytes of data
/// starting at offset 0x10 of the response frame.
pub fn flash_read(address: u32, iface: Iface) -> (r: [u8; 16])
    ensures
        r@ == flash_request(address, iface),
{
    let r: [u8; 16] = [
        0x02, 0x91, iface.code(), 0x01, 0x00, 0x08, 0x00, 0x00,
        0x00, 0x00, 0x00, 0x00,
        (address % 256) as u8,
        ((address / 0x100) % 256) as u8,
        ((address / 0x1_0000) % 256) as u8,
        (address / 0x100_0000) as u8,
    ];
    assert(r@ =~= flash_request(address, iface));
    r
}

/// The request that lights the player-indicator LEDs in `mask`.
pub open spec fn led_request(mask: u8, iface: Iface) -> Seq<u8> {
    seq![
        0x09u8, 0x91, iface_code(iface), 0x07, 0x00, 0x08, 0x00, 0x00,
        mask, 0x00, 0x00, 0x00, 0x00, 0x00, 0x00, 0x00,
    ]
}

/// Sets the player-indicator LEDs. `mask` is one bit per LED, so player 1 is `0x01`.
///
/// Sent as the bitmask subcommand (`0x09/0x07`) rather than the single-byte
/// `setPlayer1` variant, which is documented as equivalent but is not honoured
/// on a cold controller.
pub fn set_player_leds(mask: u8, iface: Iface) -> (r: [u8; 16])
    ensures
        r@ == led_request(mask, iface),
{
    let r: [u8; 16] = [
        0x09, 0x91, iface.code(), 0x07, 0x00, 0x08, 0x00, 0x00,
        mask, 0x00, 0x00, 0x00, 0x00, 0x00, 0x00, 0x00,
    ];
    assert(r@ =~= led_request(mask, iface));
    r
}

/// Byte 1 of a response frame when the controller accepted the command.
pub const RSP_TYPE_OK: u8 = 0x01;

/// Whether `rsp` is a successful reply to `req`: both have a whole command and
/// subcommand, the two agree, and the type says that it was accepted.
pub open spec fn answers(req: Seq<u8>, rsp: Seq<u8>) -> bool {
    &&& req.len() >= 4
    &&& rsp.len() >= 4
    &&& rsp[0] == req[0]
    &&& rsp[3] == req[3]
    &&& rsp[1] == RSP_TYPE_OK
}

/// True if `rsp` looks like a successful reply to `req`.
///
/// Matching on cmd + subcmd matters: a vibration ack can arrive more than 300 ms
/// late, and without matching it would satisfy the *next* command's wait.
pub fn response_matches(req: &[u8], rsp: &[u8]) -> (r: bool)
    ensures
        r == answers(req@, rsp@),
{
    rsp.len() >= 4 && req.len() >= 4 && rsp[0] == req[0] && rsp[3] == req[3] && rsp[1]
        == RSP_TYPE_OK
}

/// Every initialisation frame is exactly as long as it declares, for either
/// transport, so all of it goes on the wire.
pub proof fn law_init_frames_declare_their_length(index: int, iface: Iface)
    requires
        0 <= index < init_frames().len(),
    ensures
        init_frames().len() == INIT_FRAMES,
        declared_len(init_frames()[index]) == init_frames()[index].len(),
        declared_len(addressed(init_frames()[index], iface)) == init_frames()[index].len(),
{
    let frame = init_frames()[index];
    if index == 0 {
        assert(frame == init_frames()[0]);
    } else if index == 1 {
        assert(frame == init_frames()[1]);
    } else if index == 2 {
        assert(frame == init_frames()[2]);
    } else if index == 3 {
        assert(frame == init_frames()[3]);
    } else if index == 4 {
        assert(frame == init_frames()[4]);
    } else if index == 5 {
        assert(frame == init_frames()[5]);
    } else if index == 6 {
        assert(frame == init_frames()[6]);
    } else if index == 7 {
        assert(frame == init_frames()[7]);
    } else if index == 8 {
        assert(frame == init_frames()[8]);
    } else {
        assert(frame == init_frames()[9]);
    }
}

/// Choosing a transport touches the interface byte alone, and the last choice
/// is the one that counts.
pub proof fn law_addressing_touches_one_byte(frame: Seq<u8>, first: Iface, second: Iface)
    ensures
        addressed(frame, first).len() == frame.len(),
        declared_len(addressed(frame, first)) == declared_len(frame),
        forall|i: int| 0 <= i < frame.len() && i != 2 ==> addressed(frame, first)[i] == frame[i],
        addressed(addressed(frame, first), second) == addressed(frame, second),
{
    assert(addressed(addressed(frame, first), second) =~= addressed(frame, second));
}

/// A flash request carries its address, lowest byte first, and declares exactly
/// its own length.
pub proof fn law_flash_request_carries_its_address(address: u32, iface: Iface)
    ensures
        le_32(flash_request(address, iface), 12) == address,
        declared_len(flash_request(address, iface)) == 16,
{
}

/// A reply answers one command only: two requests that it both answers have the
/// same command and subcommand, so a late reply cannot pass for another's.
pub proof fn law_a_reply_answers_one_command(first: Seq<u8>, second: Seq<u8>, rsp: Seq<u8>)
    requires
        answers(first, rsp),
        answers(second, rsp),
    ensures
        first[0] == second[0],
        first[3] == second[3],
{
}

} // verus!
