//! Bringing a controller up: calibration is read first, while it is still
//! quiet, and then the sequence runs that starts the stream.
//!
//! Both transports go through the same stages. Over the cable a flash block that
//! does not come is asked for once more, after clearing the pipe, and a command
//! that cannot be sent is fatal. Over the air what is missing is only remarked
//! upon, since stopping half way would leave the controller half-configured.
use vstd::prelude::*;

use crate::protocol::calibration::{absorbs, blocks, is_blank, text_of, Calibration};
use crate::protocol::command::{
    addressed, flash_read, flash_request, init_frame, init_frames, led_request, set_player_leds,
    with_iface, Iface, INIT_FRAMES,
};
use crate::reading::Reading;

verus! {

/// Where the payload of a flash reply starts.
pub const FLASH_PAYLOAD_OFFSET: usize = 0x10;

/// A flash read replies with a header and a block.
pub const FLASH_REPLY: usize = 0x50;

/// Number of flash blocks that are read.
pub const BLOCKS: usize = 6;

/// The indicator of player one.
pub const PLAYER_ONE: u8 = 0x01;

/// The block in a flash reply, where the reply is long enough to hold one.
pub open spec fn payload(reply: Seq<u8>) -> Option<Seq<u8>> {
    if reply.len() < FLASH_REPLY {
        None
    } else {
        Some(reply.subrange(FLASH_PAYLOAD_OFFSET as int, FLASH_REPLY as int))
    }
}

/// The block in a flash reply, or `None` for a reply that is too short.
pub fn flash_payload(reply: &[u8]) -> (r: Option<&[u8]>)
    ensures
        r is Some == payload(reply@) is Some,
        r matches Some(block) ==> Some(block@) == payload(reply@),
{
    if reply.len() < FLASH_REPLY {
        return None;
    }
    Some(vstd::slice::slice_subrange(reply, FLASH_PAYLOAD_OFFSET, FLASH_REPLY))
}

/// How far a controller has been brought up.
#[derive(Clone, Copy, Debug, PartialEq, Eq, Structural)]
pub enum Stage {
    /// Before the first request.
    Clear,
    /// Before replies can be heard. Only over the air.
    Listen,
    /// Reading a flash block.
    Block(usize),
    /// Getting back in step before a flash block is asked for again. Only over
    /// the cable.
    Resync(usize),
    /// Reading a flash block for the second time.
    Again(usize),
    /// Running the initialisation sequence.
    Init(usize),
    /// Lighting the player indicator.
    Light,
    /// Before input can be heard. Only over the air.
    Hush,
    /// The controller streams.
    Over,
}

/// What is to be done at a stage.
#[derive(Debug, PartialEq, Eq)]
pub enum Task {
    /// Clear anything that a previous run left behind.
    Drain,
    /// Switch the proprietary service on, if there is a way to.
    Enable,
    /// Subscribe to replies.
    Subscribe,
    /// Send a flash request, and collect the reply.
    Read(Vec<u8>),
    /// Send a frame, and wait for the answer.
    Command(Vec<u8>),
    /// Send a frame.
    Send(Vec<u8>),
    /// Unsubscribe from replies.
    Unsubscribe,
}

/// How a task went.
#[derive(Debug, PartialEq, Eq)]
pub enum Outcome {
    Done,
    /// A reply to a flash request came.
    Reply(Vec<u8>),
    Failed,
}

/// A thing worth remarking upon.
#[derive(Clone, Copy, Debug, PartialEq, Eq, Structural)]
pub enum Warning {
    /// The flash block at this address is unreadable.
    Block(u32),
    /// The init command with these two codes went unanswered.
    Init(u8, u8),
}

/// What comes next.
#[derive(Debug, PartialEq, Eq)]
pub enum Next {
    Do(Task),
    /// The controller cannot be brought up.
    Abort,
    Finished,
}

/// The stage behind a flash block, whatever became of it.
pub open spec fn past_block(i: int) -> Stage {
    if i + 1 < BLOCKS {
        Stage::Block((i + 1) as usize)
    } else {
        Stage::Init(0)
    }
}

/// The stage behind an init frame.
pub open spec fn past_init(i: int) -> Stage {
    if i + 1 < INIT_FRAMES {
        Stage::Init((i + 1) as usize)
    } else {
        Stage::Light
    }
}

/// The block that an outcome brings.
pub open spec fn brought(outcome: Outcome) -> Option<Seq<u8>> {
    match outcome {
        Outcome::Reply(reply) => payload(reply@),
        _ => None,
    }
}

/// The stage that follows a stage, or `None` where the controller cannot be
/// brought up.
pub open spec fn following(iface: Iface, stage: Stage, outcome: Outcome) -> Option<Stage> {
    match stage {
        Stage::Clear => Some(
            match iface {
                Iface::Usb => Stage::Block(0),
                Iface::Ble => Stage::Listen,
            },
        ),
        Stage::Listen => if outcome is Failed {
            None
        } else {
            Some(Stage::Block(0))
        },
        Stage::Block(i) => if brought(outcome) is None && iface == Iface::Usb {
            Some(Stage::Resync(i))
        } else {
            Some(past_block(i as int))
        },
        Stage::Resync(i) => Some(Stage::Again(i)),
        Stage::Again(i) => Some(past_block(i as int)),
        Stage::Init(i) => if outcome is Failed && iface == Iface::Usb {
            None
        } else {
            Some(past_init(i as int))
        },
        Stage::Light => Some(
            match iface {
                Iface::Usb => Stage::Over,
                Iface::Ble => Stage::Hush,
            },
        ),
        Stage::Hush => Some(Stage::Over),
        Stage::Over => Some(Stage::Over),
    }
}

/// What is worth remarking upon: a flash block that is not asked for again, and
/// an unanswered init command that is not fatal.
pub open spec fn remark(iface: Iface, stage: Stage, outcome: Outcome) -> Option<Warning> {
    match stage {
        Stage::Block(i) => if brought(outcome) is None && iface == Iface::Ble {
            Some(Warning::Block(blocks()[i as int]))
        } else {
            None
        },
        Stage::Again(i) => if brought(outcome) is None {
            Some(Warning::Block(blocks()[i as int]))
        } else {
            None
        },
        Stage::Init(i) => if outcome is Failed && iface == Iface::Ble {
            Some(Warning::Init(init_frames()[i as int][0], init_frames()[i as int][3]))
        } else {
            None
        },
        _ => None,
    }
}

/// The flash address that is read at a stage.
pub open spec fn address_at(stage: Stage) -> Option<u32> {
    match stage {
        Stage::Block(i) => Some(blocks()[i as int]),
        Stage::Again(i) => Some(blocks()[i as int]),
        _ => None,
    }
}

/// What an outcome does to the calibration: a block that was read is absorbed.
pub open spec fn learned(
    before: Calibration,
    after: Calibration,
    stage: Stage,
    outcome: Outcome,
) -> bool {
    match (address_at(stage), brought(outcome)) {
        (Some(address), Some(block)) => absorbs(before, after, address, block),
        _ => after == before,
    }
}

/// The frame of the initialisation sequence that goes out at a stage.
pub open spec fn outgoing(iface: Iface, i: int) -> Seq<u8> {
    addressed(init_frames()[i], iface)
}

/// Whether `next` says to do what belongs to a stage.
pub open spec fn calls_for(iface: Iface, stage: Stage, next: Next) -> bool {
    match stage {
        Stage::Clear => next == Next::Do(
            match iface {
                Iface::Usb => Task::Drain,
                Iface::Ble => Task::Enable,
            },
        ),
        Stage::Listen => next == Next::Do(Task::Subscribe),
        Stage::Block(i) => next matches Next::Do(Task::Read(frame)) && frame@ == flash_request(
            blocks()[i as int],
            iface,
        ),
        Stage::Resync(_) => next == Next::Do(Task::Drain),
        Stage::Again(i) => next matches Next::Do(Task::Read(frame)) && frame@ == flash_request(
            blocks()[i as int],
            iface,
        ),
        Stage::Init(i) => next matches Next::Do(Task::Command(frame)) && frame@ == outgoing(
            iface,
            i as int,
        ),
        Stage::Light => next matches Next::Do(Task::Send(frame)) && frame@ == led_request(
            PLAYER_ONE,
            iface,
        ),
        Stage::Hush => next == Next::Do(Task::Unsubscribe),
        Stage::Over => next == Next::Finished,
    }
}

/// Whether a stage is one that there is.
pub open spec fn is_stage(stage: Stage) -> bool {
    match stage {
        Stage::Block(i) => i < BLOCKS,
        Stage::Resync(i) => i < BLOCKS,
        Stage::Again(i) => i < BLOCKS,
        Stage::Init(i) => i < INIT_FRAMES,
        _ => true,
    }
}

/// A controller on its way up.
pub struct Startup {
    iface: Iface,
    stage: Stage,
    cal: Calibration,
}

impl Startup {
    #[verifier::type_invariant]
    pub closed spec fn wf(self) -> bool {
        is_stage(self.stage)
    }

    /// The transport that the controller is reached by.
    pub closed spec fn transport(self) -> Iface {
        self.iface
    }

    /// The stage that it is at.
    pub closed spec fn at(self) -> Stage {
        self.stage
    }

    /// What has been read out of its flash.
    pub closed spec fn known(self) -> Calibration {
        self.cal
    }

    /// A controller that nothing has been asked of yet.
    pub fn new(iface: Iface) -> (r: Startup)
        ensures
            is_untouched(r, iface),
    {
        Startup { iface, stage: Stage::Clear, cal: Calibration::default() }
    }

    /// The stage that it is at.
    pub fn stage(&self) -> (r: Stage)
        ensures
            r == self.at(),
    {
        self.stage
    }

    /// What has been read out of the controller's flash so far.
    pub fn so_far(&self) -> (r: &Calibration)
        ensures
            *r == self.known(),
    {
        &self.cal
    }

    fn read_block(iface: Iface, i: usize) -> (r: Next)
        requires
            i < BLOCKS,
        ensures
            r matches Next::Do(Task::Read(frame)) && frame@ == flash_request(
                blocks()[i as int],
                iface,
            ),
    {
        let frame = flash_read(Calibration::BLOCKS[i], iface);
        Next::Do(Task::Read(vstd::slice::slice_to_vec(&frame)))
    }

    /// What there is to do at this stage.
    pub fn next(&self) -> (r: Next)
        ensures
            calls_for(self.transport(), self.at(), r),
    {
        proof {
            use_type_invariant(self);
        }
        match self.stage {
            Stage::Clear => Next::Do(
                match self.iface {
                    Iface::Usb => Task::Drain,
                    Iface::Ble => Task::Enable,
                },
            ),
            Stage::Listen => Next::Do(Task::Subscribe),
            Stage::Block(i) => Self::read_block(self.iface, i),
            Stage::Resync(_) => Next::Do(Task::Drain),
            Stage::Again(i) => Self::read_block(self.iface, i),
            Stage::Init(i) => {
                let frame = init_frame(i);
                Next::Do(Task::Command(with_iface(frame.as_slice(), self.iface)))
            },
            Stage::Light => {
                let frame = set_player_leds(PLAYER_ONE, self.iface);
                Next::Do(Task::Send(vstd::slice::slice_to_vec(&frame)))
            },
            Stage::Hush => Next::Do(Task::Unsubscribe),
            Stage::Over => Next::Finished,
        }
    }

    /// Takes in how the task of this stage went, moves on, and says what comes
    /// next, with what is worth remarking upon.
    pub fn step(&mut self, outcome: Outcome) -> (r: (Option<Warning>, Next))
        ensures
            steps_on(*old(self), *final(self), outcome, r.0, r.1),
    {
        proof {
            use_type_invariant(&*self);
        }
        let usb = self.iface == Iface::Usb;
        let failed = match outcome {
            Outcome::Failed => true,
            _ => false,
        };
        let mut warning: Option<Warning> = None;
        match self.stage {
            Stage::Clear => {
                self.stage = if usb {
                    Stage::Block(0)
                } else {
                    Stage::Listen
                };
            },
            Stage::Listen => {
                if failed {
                    return (None, Next::Abort);
                }
                self.stage = Stage::Block(0);
            },
            Stage::Block(i) => {
                if self.take(i, &outcome) {
                    self.stage = Self::after_block(i);
                } else if usb {
                    self.stage = Stage::Resync(i);
                } else {
                    warning = Some(Warning::Block(Calibration::BLOCKS[i]));
                    self.stage = Self::after_block(i);
                }
            },
            Stage::Resync(i) => {
                self.stage = Stage::Again(i);
            },
            Stage::Again(i) => {
                if !self.take(i, &outcome) {
                    warning = Some(Warning::Block(Calibration::BLOCKS[i]));
                }
                self.stage = Self::after_block(i);
            },
            Stage::Init(i) => {
                if failed {
                    if usb {
                        return (None, Next::Abort);
                    }
                    let frame = init_frame(i);
                    warning = Some(Warning::Init(frame[0], frame[3]));
                }
                self.stage = if i + 1 < INIT_FRAMES {
                    Stage::Init(i + 1)
                } else {
                    Stage::Light
                };
            },
            Stage::Light => {
                self.stage = if usb {
                    Stage::Over
                } else {
                    Stage::Hush
                };
            },
            Stage::Hush => {
                self.stage = Stage::Over;
            },
            Stage::Over => {},
        }
        (warning, self.next())
    }

    fn after_block(i: usize) -> (r: Stage)
        requires
            i < BLOCKS,
        ensures
            r == past_block(i as int),
    {
        if i + 1 < BLOCKS {
            Stage::Block(i + 1)
        } else {
            Stage::Init(0)
        }
    }

    /// Absorbs the block that an outcome brings, if it brings one.
    fn take(&mut self, i: usize, outcome: &Outcome) -> (r: bool)
        requires
            i < BLOCKS,
        ensures
            r == brought(*outcome) is Some,
            final(self).transport() == old(self).transport(),
            final(self).at() == old(self).at(),
            match brought(*outcome) {
                Some(block) => absorbs(
                    old(self).known(),
                    final(self).known(),
                    blocks()[i as int],
                    block,
                ),
                None => final(self).known() == old(self).known(),
            },
    {
        proof {
            use_type_invariant(&*self);
        }
        match outcome {
            Outcome::Reply(reply) => match flash_payload(reply.as_slice()) {
                Some(block) => {
                    let mut cal = self.cal.clone();
                    cal.absorb(Calibration::BLOCKS[i], block);
                    self.cal = cal;
                    true
                },
                None => false,
            },
            _ => false,
        }
    }

    /// The calibration, with what the user asked for.
    pub fn calibration(
        self,
        invert_main_y: bool,
        invert_c_y: bool,
        trigger_deadzone: Reading,
    ) -> (r: Calibration)
        ensures
            adjusted(self.known(), r, invert_main_y, invert_c_y, trigger_deadzone),
    {
        let mut cal = self.cal.clone();
        cal.invert_left_y = invert_main_y;
        cal.invert_right_y = invert_c_y;
        cal.trigger_deadzone = trigger_deadzone;
        cal
    }
}

/// Whether nothing has been asked of a controller yet.
pub open spec fn is_untouched(s: Startup, iface: Iface) -> bool {
    &&& s.transport() == iface
    &&& s.at() == Stage::Clear
    &&& is_blank(s.known())
}

/// How an outcome moves a controller on: what it brings is learned, what is worth it is
/// remarked upon, and the next stage is entered, unless there is none.
pub open spec fn steps_on(
    before: Startup,
    after: Startup,
    outcome: Outcome,
    warning: Option<Warning>,
    next: Next,
) -> bool {
    &&& after.transport() == before.transport()
    &&& learned(before.known(), after.known(), before.at(), outcome)
    &&& warning == remark(before.transport(), before.at(), outcome)
    &&& match following(before.transport(), before.at(), outcome) {
        Some(stage) => after.at() == stage && calls_for(before.transport(), stage, next),
        None => after.at() == before.at() && next == Next::Abort,
    }
}

/// What was read, with what the user asked for: the main stick is on the left, and the C
/// stick on the right.
pub open spec fn adjusted(
    known: Calibration,
    r: Calibration,
    invert_main_y: bool,
    invert_c_y: bool,
    trigger_deadzone: Reading,
) -> bool {
    &&& text_of(r.serial) == text_of(known.serial)
    &&& r.left == known.left
    &&& r.right == known.right
    &&& r.trigger_l_zero == known.trigger_l_zero
    &&& r.trigger_r_zero == known.trigger_r_zero
    &&& r.invert_left_y == invert_main_y
    &&& r.invert_right_y == invert_c_y
    &&& r.trigger_deadzone == trigger_deadzone
}

/// The place of a stage in the order that the stages come in.
pub open spec fn place(stage: Stage) -> int {
    match stage {
        Stage::Clear => 0,
        Stage::Listen => 1,
        Stage::Block(i) => 2 + 3 * i,
        Stage::Resync(i) => 3 + 3 * i,
        Stage::Again(i) => 4 + 3 * i,
        Stage::Init(i) => 2 + 3 * BLOCKS + i,
        Stage::Light => 2 + 3 * BLOCKS + INIT_FRAMES,
        Stage::Hush => 3 + 3 * BLOCKS + INIT_FRAMES,
        Stage::Over => 4 + 3 * BLOCKS + INIT_FRAMES,
    }
}

/// Every step moves on in the order of the stages, so that bringing a controller
/// up comes to an end, whatever the outcomes are.
pub proof fn law_startup_moves_on(iface: Iface, stage: Stage, outcome: Outcome)
    requires
        is_stage(stage),
        stage != Stage::Over,
    ensures
        following(iface, stage, outcome) matches Some(next) ==> is_stage(next) && place(stage)
            < place(next) <= place(Stage::Over),
{
}

/// All calibration is read before the first frame of the initialisation
/// sequence goes out, and every frame of it goes out before the indicator is
/// lit.
pub proof fn law_calibration_comes_first(block: Stage, i: usize)
    requires
        is_stage(block),
        address_at(block) is Some,
        i < INIT_FRAMES,
    ensures
        place(block) < place(Stage::Init(i)) < place(Stage::Light),
{
}

/// No frame of the initialisation sequence is left out: they go out one by one,
/// from the first, which follows the last flash block, to the last.
pub proof fn law_init_frames_go_out_in_order(iface: Iface, stage: Stage, outcome: Outcome, i: usize)
    requires
        is_stage(stage),
        following(iface, stage, outcome) == Some(Stage::Init(i)),
    ensures
        i == 0 ==> stage == Stage::Block((BLOCKS - 1) as usize) || stage == Stage::Again(
            (BLOCKS - 1) as usize,
        ),
        i > 0 ==> stage == Stage::Init((i - 1) as usize),
{
}

/// Over the cable the initialisation sequence goes out as it is written.
pub proof fn law_init_frames_are_written_for_the_cable(i: int)
    requires
        0 <= i < INIT_FRAMES,
    ensures
        outgoing(Iface::Usb, i) == init_frames()[i],
{
    assert(outgoing(Iface::Usb, i) =~= init_frames()[i]);
}

/// Over the cable a flash block that does not come is asked for exactly once
/// more, after clearing the pipe, and then passed over.
pub proof fn law_a_lost_block_is_asked_for_once_more(
    i: usize,
    first: Outcome,
    cleared: Outcome,
    second: Outcome,
)
    requires
        i < BLOCKS,
        brought(first) is None,
        brought(second) is None,
    ensures
        following(Iface::Usb, Stage::Block(i), first) == Some(Stage::Resync(i)),
        following(Iface::Usb, Stage::Resync(i), cleared) == Some(Stage::Again(i)),
        address_at(Stage::Again(i)) == address_at(Stage::Block(i)),
        following(Iface::Usb, Stage::Again(i), second) == Some(past_block(i as int)),
        remark(Iface::Usb, Stage::Block(i), first) is None,
        remark(Iface::Usb, Stage::Again(i), second) == Some(Warning::Block(blocks()[i as int])),
{
}

/// Over the air nothing but a failed subscription stops a controller from being
/// brought up.
pub proof fn law_wireless_startup_carries_on(stage: Stage, outcome: Outcome)
    ensures
        following(Iface::Ble, stage, outcome) is None <==> stage == Stage::Listen && outcome
            is Failed,
{
}

} // verus!
