//! The initialisation of a controller as the console was captured sending it over
//! the cable, and what holds the sequence that goes out to it.
use vstd::prelude::*;

use crate::protocol::calibration::{absorbs, text_of, Calibration};
use crate::protocol::command::{
    addressed, answers, declared_len, flash_request, init_frames, led_request, wired, Iface,
};
use crate::protocol::laws::law_turning_a_stick_round_turns_one_axis;
use crate::protocol::state::{GcState, RawState};
use crate::reading::Reading;
use crate::transport::startup::{
    adjusted, brought, calls_for, following, is_untouched, learned, payload, remark, steps_on, Next,
    Outcome, Stage, Startup, Task, Warning,
};
use crate::transport::usb::polled;

verus! {

/// The first bytes of each frame: its command, that it is a request, the cable, and
/// its subcommand.
pub open spec fn captured_head(i: int) -> (u8, u8, u8, u8) {
    if i == 0 {
        (0x07, 0x91, 0x00, 0x01)
    } else if i == 1 {
        (0x0c, 0x91, 0x00, 0x02)
    } else if i == 2 {
        (0x11, 0x91, 0x00, 0x01)
    } else if i == 3 {
        (0x0a, 0x91, 0x00, 0x08)
    } else if i == 4 {
        (0x0c, 0x91, 0x00, 0x04)
    } else if i == 5 {
        (0x01, 0x91, 0x00, 0x0c)
    } else if i == 6 {
        (0x01, 0x91, 0x00, 0x01)
    } else if i == 7 {
        (0x08, 0x91, 0x00, 0x02)
    } else if i == 8 {
        (0x03, 0x91, 0x00, 0x0a)
    } else {
        (0x03, 0x91, 0x00, 0x0d)
    }
}

/// What each frame carries behind its header.
pub open spec fn captured_payload(i: int) -> Seq<u8> {
    if i == 0 || i == 2 || i == 5 || i == 6 {
        Seq::empty()
    } else if i == 1 || i == 4 {
        seq![0x27u8, 0, 0, 0]
    } else if i == 3 {
        seq![
            0x01u8, 0xff, 0xff, 0xff, 0xff, 0xff, 0xff, 0xff, 0xff, 0x35,
            0x00, 0x46, 0x00, 0x00, 0x00, 0x00, 0x00, 0x00, 0x00, 0x00,
        ]
    } else if i == 7 {
        seq![0x01u8, 0, 0, 0]
    } else if i == 8 {
        seq![0x05u8, 0, 0, 0]
    } else {
        seq![0x01u8, 0x00, 0xff, 0xff, 0xff, 0xff, 0xff, 0xff]
    }
}

/// Where the flash blocks stand that are read, in order: the serial number, the
/// factory's and then the user's calibration, with the triggers between them.
pub open spec fn block_address(i: int) -> u32 {
    if i == 0 {
        0x1_3000
    } else if i == 1 {
        0x1_3080
    } else if i == 2 {
        0x1_30C0
    } else if i == 3 {
        0x1_3140
    } else if i == 4 {
        0x1F_C040
    } else {
        0x1F_C080
    }
}

/// The byte in a header that stands for a transport.
pub open spec fn transport_byte(iface: Iface) -> u8 {
    if iface is Usb {
        0
    } else {
        1
    }
}

/// Whether a frame has this header and carries this behind it. The header declares
/// how long that is.
pub open spec fn reads(frame: Seq<u8>, head: (u8, u8, u8, u8), carried: Seq<u8>) -> bool {
    &&& frame.len() == 8 + carried.len()
    &&& (frame[0], frame[1], frame[2], frame[3]) == head
    &&& frame[4] == 0
    &&& frame[5] as int == carried.len()
    &&& frame[6] == 0
    &&& frame[7] == 0
    &&& forall|j: int| 0 <= j < carried.len() ==> #[trigger] frame[8 + j] == carried[j]
}

/// There are ten frames, and each is written as it was captured.
pub proof fn law_the_sequence_is_written_as_captured(i: int)
    requires
        0 <= i < 10,
    ensures
        init_frames().len() == 10,
        reads(init_frames()[i], captured_head(i), captured_payload(i)),
{
    let frames = init_frames();
    if i == 0 {
        assert(frames[i] == frames[0]);
    } else if i == 1 {
        assert(frames[i] == frames[1]);
    } else if i == 2 {
        assert(frames[i] == frames[2]);
    } else if i == 3 {
        assert(frames[i] == frames[3]);
    } else if i == 4 {
        assert(frames[i] == frames[4]);
    } else if i == 5 {
        assert(frames[i] == frames[5]);
    } else if i == 6 {
        assert(frames[i] == frames[6]);
    } else if i == 7 {
        assert(frames[i] == frames[7]);
    } else if i == 8 {
        assert(frames[i] == frames[8]);
    } else {
        assert(frames[i] == frames[9]);
    }
}

/// Each frame that goes out during initialisation is the one that was captured, but
/// for the byte that names the transport.
pub proof fn law_the_captured_sequence_goes_out(iface: Iface, i: usize, next: Next)
    requires
        i < 10,
        calls_for(iface, Stage::Init(i), next),
    ensures
        next matches Next::Do(Task::Command(frame)) && ({
            let (cmd, kind, _, sub) = captured_head(i as int);
            reads(frame@, (cmd, kind, transport_byte(iface), sub), captured_payload(i as int))
        }),
{
    law_the_sequence_is_written_as_captured(i as int);
}

/// The report that the controller is told to send is the one that is decoded: just
/// one frame sets the report format, and a report is decoded only if it starts with
/// the ID in that frame.
pub proof fn law_the_report_asked_for_is_the_one_decoded(
    iface: Iface,
    i: usize,
    next: Next,
    report: Seq<u8>,
)
    requires
        i < 10,
        calls_for(iface, Stage::Init(i), next),
    ensures
        next matches Next::Do(Task::Command(frame)) && ({
            &&& frame@[0] == 0x03 && frame@[3] == 0x0a <==> i == 8
            &&& i == 8 && polled(report) is Report ==> report[0] == frame@[8]
            &&& i == 8 && report.len() >= 63 && report[0] == frame@[8] ==> polled(report) is Report
        }),
{
    law_the_captured_sequence_goes_out(iface, i, next);
    if i == 8 {
        let frame = next->0->Command_0@;
        assert(frame[8int + 0int] == captured_payload(8)[0]);
    }
}

/// The requests that read flash and light the indicators, for any address and any mask,
/// and what is addressed to a transport: only the third byte of a frame names that.
pub proof fn law_requests_read_as_they_are_meant(
    address: u32,
    mask: u8,
    iface: Iface,
    frame: Seq<u8>,
    j: int,
)
    ensures
        ({
            let a = address as int;
            reads(
                flash_request(address, iface),
                (0x02, 0x91, transport_byte(iface), 0x01),
                seq![
                    0u8, 0, 0, 0,
                    (a % 256) as u8,
                    (a / 0x100 % 256) as u8,
                    (a / 0x1_0000 % 256) as u8,
                    (a / 0x100_0000) as u8,
                ],
            )
        }),
        reads(
            led_request(mask, iface),
            (0x09, 0x91, transport_byte(iface), 0x07),
            seq![mask, 0, 0, 0, 0, 0, 0, 0],
        ),
        addressed(frame, iface).len() == frame.len(),
        frame.len() > 2 ==> addressed(frame, iface)[2] == transport_byte(iface),
        0 <= j < frame.len() && j != 2 ==> addressed(frame, iface)[j] == frame[j],
        frame.len() <= 2 ==> addressed(frame, iface) == frame,
{
}

/// What is done at each stage: clearing up before the first request, six flash
/// reads, and the light of the first player; over the air also what makes replies
/// heard and unheard.
pub proof fn law_each_stage_has_its_task(iface: Iface, i: usize, next: Next)
    requires
        i < 6,
    ensures
        calls_for(iface, Stage::Block(i), next) || calls_for(iface, Stage::Again(i), next) ==> (next
            matches Next::Do(Task::Read(frame)) && ({
            let a = block_address(i as int) as int;
            reads(
                frame@,
                (0x02, 0x91, transport_byte(iface), 0x01),
                seq![
                    0u8, 0, 0, 0,
                    (a % 256) as u8,
                    (a / 0x100 % 256) as u8,
                    (a / 0x1_0000 % 256) as u8,
                    0,
                ],
            )
        })),
        calls_for(iface, Stage::Light, next) ==> (next matches Next::Do(Task::Send(frame)) && reads(
            frame@,
            (0x09, 0x91, transport_byte(iface), 0x07),
            seq![1u8, 0, 0, 0, 0, 0, 0, 0],
        )),
        calls_for(iface, Stage::Clear, next) <==> next == Next::Do(
            if iface is Usb {
                Task::Drain
            } else {
                Task::Enable
            },
        ),
        calls_for(iface, Stage::Resync(i), next) <==> next == Next::Do(Task::Drain),
        calls_for(iface, Stage::Listen, next) <==> next == Next::Do(Task::Subscribe),
        calls_for(iface, Stage::Hush, next) <==> next == Next::Do(Task::Unsubscribe),
        calls_for(iface, Stage::Over, next) <==> next == Next::Finished,
{
}

/// A flash reply carries its block behind sixteen bytes.
pub proof fn law_a_reply_carries_its_block(reply: Seq<u8>)
    ensures
        payload(reply) is Some <==> reply.len() >= 80,
        payload(reply) matches Some(block) ==> block.len() == 64 && (forall|i: int|
            0 <= i < 64 ==> #[trigger] block[i] == reply[16 + i]),
{
}

/// What a reply teaches is what it carries, at the address that was asked for, and
/// nothing else teaches anything.
pub proof fn law_a_reply_teaches_what_was_asked_for(
    before: Calibration,
    after: Calibration,
    stage: Stage,
    outcome: Outcome,
    i: usize,
)
    requires
        i < 6,
        learned(before, after, stage, outcome),
    ensures
        stage == Stage::Block(i) || stage == Stage::Again(i) ==> match outcome {
            Outcome::Reply(reply) => if reply@.len() >= 80 {
                absorbs(before, after, block_address(i as int), reply@.subrange(16, 80))
            } else {
                after == before
            },
            _ => after == before,
        },
        !(stage is Block) && !(stage is Again) ==> after == before,
{
}

/// The stage that bringing a controller up is at after `n` steps, given how the
/// task of each went.
pub open spec fn stage_after(iface: Iface, outcomes: Seq<Outcome>, n: int) -> Option<Stage>
    decreases n,
{
    if n <= 0 {
        Some(Stage::Clear)
    } else {
        match stage_after(iface, outcomes, n - 1) {
            Some(stage) => following(iface, stage, outcomes[n - 1]),
            None => None,
        }
    }
}

/// When all goes well a wired controller takes eighteen steps: the pipe is cleared,
/// the six blocks are read, the ten frames sent, and the light lit.
pub proof fn law_a_wired_controller_comes_up(outcomes: Seq<Outcome>, n: int)
    requires
        0 <= n <= outcomes.len(),
        forall|k: int| 0 <= k < n ==> !(#[trigger] outcomes[k] is Failed),
        forall|k: int| 1 <= k < 7 && k < n ==> brought(#[trigger] outcomes[k]) is Some,
    ensures
        stage_after(Iface::Usb, outcomes, n) == Some(
            if n == 0 {
                Stage::Clear
            } else if n < 7 {
                Stage::Block((n - 1) as usize)
            } else if n < 17 {
                Stage::Init((n - 7) as usize)
            } else if n == 17 {
                Stage::Light
            } else {
                Stage::Over
            },
        ),
    decreases n,
{
    if n > 0 {
        law_a_wired_controller_comes_up(outcomes, n - 1);
    }
}

/// When all goes well a wireless controller takes twenty steps: the service is
/// enabled, replies are subscribed to, the six blocks are read, the ten frames sent,
/// the light is lit, and replies are unsubscribed from.
pub proof fn law_a_wireless_controller_comes_up(outcomes: Seq<Outcome>, n: int)
    requires
        0 <= n <= outcomes.len(),
        1 < n ==> !(outcomes[1] is Failed),
    ensures
        stage_after(Iface::Ble, outcomes, n) == Some(
            if n == 0 {
                Stage::Clear
            } else if n == 1 {
                Stage::Listen
            } else if n < 8 {
                Stage::Block((n - 2) as usize)
            } else if n < 18 {
                Stage::Init((n - 8) as usize)
            } else if n == 18 {
                Stage::Light
            } else if n == 19 {
                Stage::Hush
            } else {
                Stage::Over
            },
        ),
    decreases n,
{
    if n > 0 {
        law_a_wireless_controller_comes_up(outcomes, n - 1);
    }
}

/// Once a block was asked for again, the next block is read, whatever came, and behind the
/// sixth block the frames go out.
pub proof fn law_a_block_asked_for_again_is_left_behind(
    outcome: Outcome,
    cleared: Outcome,
    i: usize,
)
    requires
        i < 6,
    ensures
        following(Iface::Usb, Stage::Resync(i), cleared) == Some(Stage::Again(i)),
        following(Iface::Usb, Stage::Again(i), outcome) == Some(
            if i < 5 {
                Stage::Block((i + 1) as usize)
            } else {
                Stage::Init(0)
            },
        ),
        following(Iface::Usb, Stage::Block(i), outcome) == Some(
            if brought(outcome) is None {
                Stage::Resync(i)
            } else if i < 5 {
                Stage::Block((i + 1) as usize)
            } else {
                Stage::Init(0)
            },
        ),
{
}

/// A wired controller is given up exactly where a frame of the sequence is lost.
pub proof fn law_a_lost_frame_stops_a_wired_controller(stage: Stage, outcome: Outcome)
    requires
        stage != Stage::Listen,
    ensures
        following(Iface::Usb, stage, outcome) is None <==> stage is Init && outcome is Failed,
{
}

/// What is remarked upon: over the air a block that did not come and a frame that
/// was not answered, and over the cable a block that did not come the second time.
pub proof fn law_what_is_remarked_upon(iface: Iface, stage: Stage, outcome: Outcome, i: usize)
    ensures
        i < 6 ==> (remark(iface, Stage::Block(i), outcome) == if brought(outcome) is None && iface
            is Ble {
            Some(Warning::Block(block_address(i as int)))
        } else {
            None
        }),
        i < 6 ==> (remark(iface, Stage::Again(i), outcome) == if brought(outcome) is None {
            Some(Warning::Block(block_address(i as int)))
        } else {
            None
        }),
        i < 10 ==> (remark(iface, Stage::Init(i), outcome) == if outcome is Failed && iface is Ble {
            Some(Warning::Init(captured_head(i as int).0, captured_head(i as int).3))
        } else {
            None
        }),
        !(stage is Block) && !(stage is Again) && !(stage is Init) ==> remark(iface, stage, outcome)
            is None,
{
    if i < 10 {
        law_the_sequence_is_written_as_captured(i as int);
    }
}

/// A reply is the answer to a request where it has the request's command and
/// subcommand and says that it was accepted; nothing else in either matters, but that
/// both are long enough to tell.
pub proof fn law_an_answer_is_told_by_three_bytes(request: Seq<u8>, reply: Seq<u8>)
    ensures
        request.len() < 4 || reply.len() < 4 ==> !answers(request, reply),
        request.len() >= 4 && reply.len() >= 4 ==> (answers(request, reply) <==> reply[0]
            == request[0] && reply[1] == 1 && reply[3] == request[3]),
{
}

/// A frame goes out as long as it declares: eight bytes and what its sixth byte
/// says, as far as there is that much.
pub proof fn law_a_frame_is_as_long_as_it_declares(frame: Seq<u8>)
    ensures
        frame.len() >= 8 + frame[5] && frame.len() > 5 ==> declared_len(frame) == 8 + frame[5],
        frame.len() <= 5 || frame.len() < 8 + frame[5] ==> declared_len(frame) == frame.len(),
        wired(frame).len() == declared_len(frame),
        wired(frame).is_prefix_of(frame),
{
}

/// A controller starts out at the first stage with nothing known of it.
pub proof fn law_a_controller_starts_out_unknown(s: Startup, iface: Iface)
    requires
        is_untouched(s, iface),
    ensures
        s.transport() == iface,
        s.at() == Stage::Clear,
        s.known().serial is None,
        s.known().left.x.neutral == 0 && s.known().left.y.neutral == 0,
        s.known().right.x.neutral == 0 && s.known().right.y.neutral == 0,
        s.known().trigger_l_zero == 0 && s.known().trigger_r_zero == 0,
        !s.known().invert_left_y && !s.known().invert_right_y,
        s.known().trigger_deadzone.units() == 0,
{
}

/// A step goes to the stage that follows and says what is to be done there, or gives up
/// where none follows. It remarks and learns what belongs to the stage that it leaves.
pub proof fn law_a_step_says_what_is_next(
    before: Startup,
    after: Startup,
    outcome: Outcome,
    warning: Option<Warning>,
    next: Next,
)
    requires
        steps_on(before, after, outcome, warning, next),
    ensures
        after.transport() == before.transport(),
        next is Abort <==> following(before.transport(), before.at(), outcome) is None,
        next is Abort ==> after.at() == before.at(),
        !(next is Abort) ==> following(before.transport(), before.at(), outcome) == Some(after.at())
            && calls_for(before.transport(), after.at(), next),
        warning == remark(before.transport(), before.at(), outcome),
        learned(before.known(), after.known(), before.at(), outcome),
{
}

/// Inverting the main stick turns the vertical axis of the left stick, and inverting the
/// C stick that of the right one: what was asked for is what the readings show.
pub proof fn law_inverting_a_stick_turns_that_stick(
    known: Calibration,
    plain: Calibration,
    turned: Calibration,
    main: bool,
    c: bool,
    deadzone: Reading,
    raw: RawState,
    s: GcState,
    t: GcState,
)
    requires
        adjusted(known, plain, false, false, deadzone),
        adjusted(known, turned, main, c, deadzone),
        plain.applies(raw, s),
        turned.applies(raw, t),
    ensures
        t.main.0 == s.main.0,
        t.c_stick.0 == s.c_stick.0,
        t.trigger_l == s.trigger_l,
        t.trigger_r == s.trigger_r,
        t.main.1.units() == if main {
            -s.main.1.units()
        } else {
            s.main.1.units()
        },
        t.c_stick.1.units() == if c {
            -s.c_stick.1.units()
        } else {
            s.c_stick.1.units()
        },
        turned.left == known.left,
        turned.right == known.right,
        turned.trigger_l_zero == known.trigger_l_zero,
        turned.trigger_r_zero == known.trigger_r_zero,
        text_of(turned.serial) == text_of(known.serial),
        turned.trigger_deadzone == deadzone,
{
    law_turning_a_stick_round_turns_one_axis(plain, turned, raw, s, t);
}

} // verus!
