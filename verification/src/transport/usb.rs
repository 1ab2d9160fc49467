//! Wired transport. Uses both of the controller's USB interfaces.
//!
//! The controller exposes two interfaces and they are not interchangeable:
//!
//! * **Interface 0**, HID class. macOS binds its own driver here on plug-in.
//!   This is where input reports stream from.
//! * **Interface 1**, vendor class, bulk endpoints, no driver attached. This is
//!   the SW2 command channel: flash reads, the init sequence, LEDs.
use vstd::prelude::*;

use crate::protocol::report::{decode, decoded, USB_BODY_OFFSET};
use crate::protocol::state::RawState;
use crate::protocol::{PID_NSO_GAMECUBE, VID_NINTENDO};
use crate::transport::startup::FLASH_REPLY;

verus! {

/// The vendor-specific interface carrying the SW2 command protocol.
pub const VENDOR_INTERFACE: u8 = 1;

/// Largest packet either interface uses.
pub const PACKET: usize = 64;

/// The report ID the init sequence selects. Numbered reports arrive with this
/// byte still in front, so the body starts one later.
pub const REPORT_ID_INPUT: u8 = 0x05;

/// How long to wait for a command acknowledgement during setup, in milliseconds.
pub const CMD_TIMEOUT_MS: u64 = 250;

/// Short timeout used when clearing stale packets out of the bulk pipe, in
/// milliseconds.
pub const DRAIN_TIMEOUT_MS: u64 = 20;

/// Blocking read timeout while streaming, in milliseconds. Long enough that a
/// quiet controller does not look like an error, short enough to notice an
/// unplug promptly.
pub const READ_TIMEOUT_MS: i32 = 1000;

/// How many stale packets are cleared at most, so a controller that streams
/// continuously cannot trap us.
pub const DRAIN_READS: u32 = 16;

/// What one poll produced.
#[derive(Clone, Copy, Debug, PartialEq, Eq)]
pub enum Poll {
    /// The read timed out. Not an error — just nothing new.
    Idle,
    /// A report arrived that we do not decode, e.g. a different report ID.
    /// Carries its length.
    Unknown(usize),
    Report(RawState),
}

/// What a frame that a poll read holds.
pub open spec fn polled(frame: Seq<u8>) -> Poll {
    if frame.len() == 0 {
        Poll::Idle
    } else if frame[0] != REPORT_ID_INPUT {
        Poll::Unknown(frame.len() as usize)
    } else {
        match decoded(frame, USB_BODY_OFFSET as int) {
            Some(state) => Poll::Report(state),
            None => Poll::Unknown(frame.len() as usize),
        }
    }
}

/// Says what a frame that a poll read holds. A read that timed out has none.
pub fn poll(frame: &[u8]) -> (r: Poll)
    ensures
        r == polled(frame@),
{
    let n = frame.len();
    if n == 0 {
        return Poll::Idle;
    }
    if frame[0] != REPORT_ID_INPUT {
        return Poll::Unknown(n);
    }
    match decode(frame, USB_BODY_OFFSET) {
        Some(state) => Poll::Report(state),
        None => Poll::Unknown(n),
    }
}

/// Whether a device, known by its vendor and product ID, is the controller. A
/// device whose IDs could not be read is not.
pub open spec fn is_controller(ids: Option<(u16, u16)>) -> bool {
    ids == Some((VID_NINTENDO, PID_NSO_GAMECUBE))
}

/// Whether `r` is where the first controller stands among the devices on the bus.
pub open spec fn is_first_controller(devices: Seq<Option<(u16, u16)>>, r: Option<usize>) -> bool {
    match r {
        Some(i) => {
            &&& i < devices.len()
            &&& is_controller(devices[i as int])
            &&& forall|j: int| 0 <= j < i ==> !is_controller(#[trigger] devices[j])
        },
        None => forall|j: int| 0 <= j < devices.len() ==> !is_controller(#[trigger] devices[j]),
    }
}

/// Whether there is a controller among the devices on the bus.
pub open spec fn is_plugged_in(devices: Seq<Option<(u16, u16)>>) -> bool {
    exists|i: int| 0 <= i < devices.len() && is_controller(#[trigger] devices[i])
}

/// The first controller among the devices on the bus.
pub fn first_controller(devices: &[Option<(u16, u16)>]) -> (r: Option<usize>)
    ensures
        is_first_controller(devices@, r),
{
    for i in 0..devices.len()
        invariant
            forall|j: int| 0 <= j < i ==> !is_controller(#[trigger] devices@[j]),
    {
        if let Some((vid, pid)) = devices[i] {
            if vid == VID_NINTENDO && pid == PID_NSO_GAMECUBE {
                return Some(i);
            }
        }
    }
    None
}

/// Whether the controller is plugged in.
///
/// A plain "is it there" answer: `false` means absent, not busy. A controller
/// held by another process still reports present.
pub fn is_present(devices: &[Option<(u16, u16)>]) -> (r: bool)
    ensures
        r == is_plugged_in(devices@),
{
    first_controller(devices).is_some()
}

/// An endpoint of the active configuration.
#[derive(Clone, Copy, Debug, PartialEq, Eq, Structural)]
pub struct Endpoint {
    /// The interface that it belongs to.
    pub interface: u8,
    /// Whether it carries bulk transfers.
    pub bulk: bool,
    /// Whether it carries them to the host.
    pub incoming: bool,
    pub address: u8,
}

impl Endpoint {
    /// Whether this is a bulk endpoint of the vendor interface in one direction.
    pub open spec fn carries(self, incoming: bool) -> bool {
        self.interface == VENDOR_INTERFACE && self.bulk && self.incoming == incoming
    }
}

/// The last bulk endpoint on the vendor interface in one direction.
pub open spec fn bulk_endpoint(endpoints: Seq<Endpoint>, incoming: bool) -> Option<u8>
    decreases endpoints.len(),
{
    if endpoints.len() == 0 {
        None
    } else if endpoints.last().carries(incoming) {
        Some(endpoints.last().address)
    } else {
        bulk_endpoint(endpoints.drop_last(), incoming)
    }
}

/// The bulk endpoints on the vendor interface, IN before OUT, where there are both.
pub open spec fn bulk_pair(endpoints: Seq<Endpoint>) -> Option<(u8, u8)> {
    match (bulk_endpoint(endpoints, true), bulk_endpoint(endpoints, false)) {
        (Some(ep_in), Some(ep_out)) => Some((ep_in, ep_out)),
        _ => None,
    }
}

/// Locates the bulk IN and OUT endpoints on the vendor interface, or gives
/// `None` where one is missing.
pub fn find_bulk_endpoints(endpoints: &[Endpoint]) -> (r: Option<(u8, u8)>)
    ensures
        r == bulk_pair(endpoints@),
{
    let mut ep_in: Option<u8> = None;
    let mut ep_out: Option<u8> = None;
    for i in 0..endpoints.len()
        invariant
            ep_in == bulk_endpoint(endpoints@.take(i as int), true),
            ep_out == bulk_endpoint(endpoints@.take(i as int), false),
    {
        let ep = endpoints[i];
        if ep.interface == VENDOR_INTERFACE && ep.bulk {
            if ep.incoming {
                ep_in = Some(ep.address);
            } else {
                ep_out = Some(ep.address);
            }
        }
        assert(endpoints@.take(i + 1).drop_last() =~= endpoints@.take(i as int));
    }
    assert(endpoints@.take(endpoints@.len() as int) =~= endpoints@);
    match (ep_in, ep_out) {
        (Some(i), Some(o)) => Some((i, o)),
        _ => None,
    }
}

/// Whether stale packets are read on, after so many reads of which the last gave `got`
/// bytes.
pub open spec fn drains_on(reads: u32, got: usize) -> bool {
    reads < DRAIN_READS && (reads == 0 || got > 0)
}

/// Whether to read another stale packet, after so many reads of which the last
/// gave `got` bytes. One that failed or timed out gives none.
pub fn keep_draining(reads: u32, got: usize) -> (r: bool)
    ensures
        r == drains_on(reads, got),
{
    reads < DRAIN_READS && (reads == 0 || got > 0)
}

/// A flash reply that comes in more than one packet.
pub struct FlashReply {
    bytes: Vec<u8>,
    ended: bool,
}

impl FlashReply {
    #[verifier::type_invariant]
    pub closed spec fn wf(self) -> bool {
        self.bytes@.len() <= FLASH_REPLY
    }

    /// What has come so far.
    pub closed spec fn got(self) -> Seq<u8> {
        self.bytes@
    }

    /// Whether nothing more will come.
    pub closed spec fn is_over(self) -> bool {
        self.ended || self.bytes@.len() == FLASH_REPLY
    }

    /// How much to ask for next: a packet at most, and no more than is missing.
    pub open spec fn wants(self) -> int {
        let missing = FLASH_REPLY - self.got().len();
        if self.is_over() {
            0
        } else if missing < PACKET {
            missing
        } else {
            PACKET as int
        }
    }

    /// A reply nothing of which has come.
    pub fn new() -> (r: FlashReply)
        ensures
            r.got().len() == 0,
            !r.is_over(),
    {
        FlashReply { bytes: Vec::new(), ended: false }
    }

    /// How much to ask for next, or 0 where the reply is over.
    pub fn room(&self) -> (r: usize)
        ensures
            r == self.wants(),
            r == 0 <==> self.is_over(),
    {
        proof {
            use_type_invariant(self);
        }
        let len = self.bytes.len();
        if self.ended || len == FLASH_REPLY {
            0
        } else if FLASH_REPLY - len < PACKET {
            FLASH_REPLY - len
        } else {
            PACKET
        }
    }

    /// Takes in what a read gave. A read that gave nothing ends the reply.
    pub fn take(&mut self, packet: &[u8])
        requires
            packet@.len() <= old(self).wants(),
        ensures
            takes_in(*old(self), *final(self), packet@),
    {
        proof {
            use_type_invariant(&*self);
        }
        let mut bytes: Vec<u8> = Vec::new();
        std::mem::swap(&mut bytes, &mut self.bytes);
        if packet.len() == 0 {
            self.ended = true;
        }
        bytes.extend_from_slice(packet);
        assert(bytes@ =~= old(self).bytes@ + packet@);
        self.bytes = bytes;
    }

    /// What has come so far.
    pub fn bytes(&self) -> (r: &[u8])
        ensures
            r@ == self.got(),
    {
        self.bytes.as_slice()
    }
}

/// What a packet does to a reply: it is put behind what there is, and an empty one ends
/// the reply.
pub open spec fn takes_in(before: FlashReply, after: FlashReply, packet: Seq<u8>) -> bool {
    &&& after.got() == before.got() + packet
    &&& after.is_over() == (before.is_over() || packet.len() == 0 || after.got().len()
        == FLASH_REPLY)
}

/// A report is decoded exactly where it has the ID that the init sequence
/// selects and is long enough, and then as its body reads.
pub proof fn law_only_input_reports_are_decoded(frame: Seq<u8>)
    ensures
        polled(frame) is Report <==> frame.len() > 0 && frame[0] == REPORT_ID_INPUT && decoded(
            frame,
            USB_BODY_OFFSET as int,
        ) is Some,
        polled(frame) matches Poll::Report(state) ==> decoded(frame, USB_BODY_OFFSET as int)
            == Some(state),
        polled(frame) is Idle <==> frame.len() == 0,
{
}

/// A reply that has come complete is over. Until then a read asks for at least
/// one byte, for a packet at most, and never for more than is missing.
pub proof fn law_a_complete_reply_is_over(reply: FlashReply)
    requires
        reply.wf(),
    ensures
        reply.got().len() == FLASH_REPLY ==> reply.is_over() && reply.wants() == 0,
        !reply.is_over() ==> 0 < reply.wants() <= PACKET && reply.got().len() + reply.wants()
            <= FLASH_REPLY,
{
}

} // verus!
