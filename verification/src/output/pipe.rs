//! Dolphin "Pipe" input backend.
//!
//! Dolphin scans `~/Library/Application Support/Dolphin/Pipes/` at startup and
//! exposes every FIFO it can open as an input device named `Pipe/0/<filename>`.
//! It speaks a line-oriented text protocol:
//!
//! ```text
//! PRESS A          RELEASE A
//! SET MAIN 0.5 0.5     (x, y in 0..1, 0.5 centred)
//! SET L 0.75           (analog trigger, 0..1)
//! ```
//!
//! Two rules keep this path fast. We only ever write what changed, and we never
//! block: the FIFO is opened non-blocking and a full pipe drops the update
//! rather than stalling the transport thread. Dropped updates are self-healing
//! because the committed state only advances on a successful write, so the next
//! report re-sends whatever did not land.
use vstd::arithmetic::mul::*;
use vstd::arithmetic::power2::*;
use vstd::prelude::*;
use vstd::string::*;
use vstd::utf8::*;

use crate::digits::{
    digits, lemma_digits, power_of_ten, push_reading, reading_text, sign_text, steps_text,
};
use crate::protocol::state::{well_formed, GcState};
use crate::reading::{lemma_unit_axis_bounds, on_unit_axis, Reading};
use crate::rounding::{decimal, lemma_half_even_exact, lemma_half_even_monotone, one};

verus! {

/// macOS `PIPE_BUF`. Writes up to this size are atomic on a non-blocking FIFO:
/// they either land whole or fail with `EAGAIN`, never tearing a line in half.
pub const PIPE_BUF: usize = 512;

/// Where Dolphin looks for pipes, below the home directory.
pub const PIPES_SUBDIR: &'static str = "Library/Application Support/Dolphin/Pipes";

/// How many buttons Dolphin's pipe device understands.
pub const BUTTONS: usize = 12;

/// How many controls there are: the buttons, two sticks and two triggers.
pub const CONTROLS: usize = 16;

/// Dolphin's token for a control. Buttons come first, then the sticks, then the
/// triggers.
pub open spec fn control_name(i: int) -> Seq<char> {
    if i == 0 {
        "A"@
    } else if i == 1 {
        "B"@
    } else if i == 2 {
        "X"@
    } else if i == 3 {
        "Y"@
    } else if i == 4 {
        "Z"@
    } else if i == 5 {
        "START"@
    } else if i == 6 {
        "L"@
    } else if i == 7 {
        "R"@
    } else if i == 8 {
        "D_UP"@
    } else if i == 9 {
        "D_DOWN"@
    } else if i == 10 {
        "D_LEFT"@
    } else if i == 11 {
        "D_RIGHT"@
    } else if i == 12 {
        "MAIN"@
    } else if i == 13 {
        "C"@
    } else if i == 14 {
        "L"@
    } else {
        "R"@
    }
}

/// Whether a button is held.
pub open spec fn held(s: GcState, i: int) -> bool {
    if i == 0 {
        s.a
    } else if i == 1 {
        s.b
    } else if i == 2 {
        s.x
    } else if i == 3 {
        s.y
    } else if i == 4 {
        s.z
    } else if i == 5 {
        s.start
    } else if i == 6 {
        s.l
    } else if i == 7 {
        s.r
    } else if i == 8 {
        s.d_up
    } else if i == 9 {
        s.d_down
    } else if i == 10 {
        s.d_left
    } else {
        s.d_right
    }
}

/// The main stick, or the C stick.
pub open spec fn stick(s: GcState, i: int) -> (Reading, Reading) {
    if i == 12 {
        s.main
    } else {
        s.c_stick
    }
}

/// The left trigger, or the right one.
pub open spec fn trigger(s: GcState, i: int) -> Reading {
    if i == 14 {
        s.trigger_l
    } else {
        s.trigger_r
    }
}

/// An axis as it is printed: ten-thousandths of the range from 0 to 1, 0.5
/// centred.
pub open spec fn axis_steps(r: Reading) -> int {
    decimal(on_unit_axis(r.units()), 10_000)
}

/// A trigger as it is printed: ten-thousandths, with a sign.
pub open spec fn trigger_steps(r: Reading) -> int {
    let steps = decimal(r.magnitude(), 10_000);
    if r.is_negative() {
        -steps
    } else {
        steps
    }
}

/// What Dolphin can see of a control.
pub enum Seen {
    Button(bool),
    Stick(int, int),
    Trigger(int),
}

/// What Dolphin can see of a control in a state: what is printed, to the fourth
/// decimal place and no further.
pub open spec fn seen(s: GcState, i: int) -> Seen {
    if i < BUTTONS {
        Seen::Button(held(s, i))
    } else if i < 14 {
        Seen::Stick(axis_steps(stick(s, i).0), axis_steps(stick(s, i).1))
    } else {
        Seen::Trigger(trigger_steps(trigger(s, i)))
    }
}

/// The command that sets a control as it is in a state.
pub open spec fn line(s: GcState, i: int) -> Seq<char> {
    if i < BUTTONS {
        (if held(s, i) {
            "PRESS "@
        } else {
            "RELEASE "@
        }) + control_name(i) + "\n"@
    } else if i < 14 {
        "SET "@ + control_name(i) + " "@ + steps_text(axis_steps(stick(s, i).0), 4) + " "@
            + steps_text(axis_steps(stick(s, i).1), 4) + "\n"@
    } else {
        "SET "@ + control_name(i) + " "@ + reading_text(trigger(s, i), 4, false) + "\n"@
    }
}

/// Whether a control's command is sent: Dolphin has no state yet, or it would
/// see a difference.
pub open spec fn is_sent(prev: Option<GcState>, next: GcState, i: int) -> bool {
    match prev {
        None => true,
        Some(p) => seen(p, i) != seen(next, i),
    }
}

/// The commands for the first `n` controls that move Dolphin from `prev` to
/// `next`.
pub open spec fn delta(prev: Option<GcState>, next: GcState, n: int) -> Seq<char>
    decreases n,
{
    if n <= 0 {
        Seq::empty()
    } else if is_sent(prev, next, n - 1) {
        delta(prev, next, n - 1) + line(next, n - 1)
    } else {
        delta(prev, next, n - 1)
    }
}

/// An optional state, without the borrow.
pub open spec fn owned(s: Option<&GcState>) -> Option<GcState> {
    match s {
        Some(s) => Some(*s),
        None => None,
    }
}

fn name_of(i: usize) -> (r: &'static str)
    requires
        i < CONTROLS,
    ensures
        r@ == control_name(i as int),
{
    match i {
        0 => "A",
        1 => "B",
        2 => "X",
        3 => "Y",
        4 => "Z",
        5 => "START",
        6 => "L",
        7 => "R",
        8 => "D_UP",
        9 => "D_DOWN",
        10 => "D_LEFT",
        11 => "D_RIGHT",
        12 => "MAIN",
        13 => "C",
        14 => "L",
        _ => "R",
    }
}

fn is_held(s: &GcState, i: usize) -> (r: bool)
    requires
        i < BUTTONS,
    ensures
        r == held(*s, i as int),
{
    match i {
        0 => s.a,
        1 => s.b,
        2 => s.x,
        3 => s.y,
        4 => s.z,
        5 => s.start,
        6 => s.l,
        7 => s.r,
        8 => s.d_up,
        9 => s.d_down,
        10 => s.d_left,
        _ => s.d_right,
    }
}

fn stick_of(s: &GcState, i: usize) -> (r: (Reading, Reading))
    requires
        12 <= i < 14,
    ensures
        r == stick(*s, i as int),
{
    if i == 12 {
        s.main
    } else {
        s.c_stick
    }
}

fn trigger_of(s: &GcState, i: usize) -> (r: Reading)
    requires
        14 <= i < 16,
    ensures
        r == trigger(*s, i as int),
{
    if i == 14 {
        s.trigger_l
    } else {
        s.trigger_r
    }
}

/// Equality at the 4 decimal places we actually print, for axes.
fn same_axis(a: Reading, b: Reading) -> (r: bool)
    ensures
        r == (axis_steps(a) == axis_steps(b)),
{
    a.to_unit().steps(10_000) == b.to_unit().steps(10_000)
}

/// Equality at the 4 decimal places we actually print, for triggers.
fn same_travel(a: Reading, b: Reading) -> (r: bool)
    ensures
        r == (trigger_steps(a) == trigger_steps(b)),
{
    let x: u32 = a.steps(10_000);
    let y: u32 = b.steps(10_000);
    x == y && (x == 0 || a.negative() == b.negative())
}

/// Whether Dolphin sees a control alike in two states.
fn looks_alike(a: &GcState, b: &GcState, i: usize) -> (r: bool)
    requires
        i < CONTROLS,
    ensures
        r == (seen(*a, i as int) == seen(*b, i as int)),
{
    if i < BUTTONS {
        is_held(a, i) == is_held(b, i)
    } else if i < 14 {
        let (ax, ay) = stick_of(a, i);
        let (bx, by) = stick_of(b, i);
        same_axis(ax, bx) && same_axis(ay, by)
    } else {
        same_travel(trigger_of(a, i), trigger_of(b, i))
    }
}

/// Appends an axis as Dolphin wants it.
fn push_axis(buf: &mut String, r: Reading)
    ensures
        final(buf)@ == old(buf)@ + steps_text(axis_steps(r), 4),
{
    let unit = r.to_unit();
    push_reading(buf, unit, 4, false);
    proof {
        reveal_with_fuel(power_of_ten, 5);
        assert(sign_text(false, false) + steps_text(axis_steps(r), 4) =~= steps_text(
            axis_steps(r),
            4,
        ));
    }
}

/// Appends the command that sets one control.
fn push_line(buf: &mut String, s: &GcState, i: usize)
    requires
        i < CONTROLS,
    ensures
        final(buf)@ == old(buf)@ + line(*s, i as int),
{
    if i < BUTTONS {
        if is_held(s, i) {
            buf.append("PRESS ");
        } else {
            buf.append("RELEASE ");
        }
        buf.append(name_of(i));
    } else {
        buf.append("SET ");
        buf.append(name_of(i));
        buf.append(" ");
        if i < 14 {
            let (x, y) = stick_of(s, i);
            push_axis(buf, x);
            buf.append(" ");
            push_axis(buf, y);
        } else {
            push_reading(buf, trigger_of(s, i), 4, false);
        }
    }
    buf.append("\n");
    assert(buf@ =~= old(buf)@ + line(*s, i as int));
}

/// Whether a text holds nothing but visible ASCII characters and spaces.
pub open spec fn printable(s: Seq<char>) -> bool {
    forall|i: int| 0 <= i < s.len() ==> ' ' <= #[trigger] s[i] <= '~'
}

/// A command is a short run of printable characters and the newline that ends
/// it.
pub proof fn lemma_line(s: GcState, i: int)
    requires
        well_formed(s),
        0 <= i < CONTROLS,
    ensures
        0 < line(s, i).len() <= 32,
        line(s, i).last() == '\n',
        printable(line(s, i).drop_last()),
{
    reveal_strlit("\n");
    let body = line(s, i).drop_last();
    lemma_name(i);
    if i < BUTTONS {
        reveal_strlit("PRESS ");
        reveal_strlit("RELEASE ");
        let verb = if held(s, i) {
            "PRESS "@
        } else {
            "RELEASE "@
        };
        assert(body =~= verb + control_name(i));
    } else {
        reveal_strlit("SET ");
        reveal_strlit(" ");
        let head = "SET "@ + control_name(i) + " "@;
        assert(printable(head));
        if i < 14 {
            let (x, y) = stick(s, i);
            x.lemma_bounds();
            y.lemma_bounds();
            lemma_unit_axis_bounds(x.units());
            lemma_unit_axis_bounds(y.units());
            lemma_steps_text(on_unit_axis(x.units()));
            lemma_steps_text(on_unit_axis(y.units()));
            let tx = steps_text(axis_steps(x), 4);
            let ty = steps_text(axis_steps(y), 4);
            assert(body =~= head + tx + " "@ + ty);
        } else {
            let r = trigger(s, i);
            r.lemma_bounds();
            lemma_steps_text(r.magnitude());
            reveal_strlit("-");
            reveal_with_fuel(power_of_ten, 5);
            let t = reading_text(r, 4, false);
            assert(t =~= sign_text(r.is_negative(), false) + steps_text(
                decimal(r.magnitude(), 10_000),
                4,
            ));
            assert(body =~= head + t);
        }
    }
}

proof fn lemma_name(i: int)
    ensures
        0 < control_name(i).len() <= 7,
        printable(control_name(i)),
{
    reveal_strlit("A");
    reveal_strlit("B");
    reveal_strlit("X");
    reveal_strlit("Y");
    reveal_strlit("Z");
    reveal_strlit("START");
    reveal_strlit("L");
    reveal_strlit("R");
    reveal_strlit("D_UP");
    reveal_strlit("D_DOWN");
    reveal_strlit("D_LEFT");
    reveal_strlit("D_RIGHT");
    reveal_strlit("MAIN");
    reveal_strlit("C");
}

proof fn lemma_steps_text(units: int)
    requires
        units >= 0,
    ensures
        steps_text(decimal(units, 10_000), 4).len() == 6,
        printable(steps_text(decimal(units, 10_000), 4)),
{
    reveal_strlit(".");
    reveal_with_fuel(power_of_ten, 5);
    lemma_pow2_pos(149);
    let n = decimal(units, 10_000);
    lemma_half_even_exact(0, one());
    lemma_mul_basics(one());
    assert(0 * one() <= units * 10_000 * one()) by (nonlinear_arith)
        requires
            units >= 0,
            one() > 0,
    ;
    lemma_half_even_monotone(0 * one(), one(), units * 10_000, one());
    lemma_digits(n / 10_000, 10, 1);
    lemma_digits(n % 10_000, 10, 4);
    let whole = digits(n / 10_000, 10, 1);
    let part = digits(n % 10_000, 10, 4);
    assert(steps_text(n, 4) =~= whole + "."@ + part);
}

/// Commands are whole lines of printable characters, and all of them together
/// fit in one atomic write.
pub proof fn lemma_delta(prev: Option<GcState>, next: GcState, n: int)
    requires
        well_formed(next),
        0 <= n <= CONTROLS,
    ensures
        delta(prev, next, n).len() <= 32 * n,
        delta(prev, next, n).len() > 0 ==> delta(prev, next, n).last() == '\n',
        is_ascii_chars(delta(prev, next, n)),
        delta(prev, next, n).len() == 0 <==> (forall|i: int|
            0 <= i < n ==> !#[trigger] is_sent(prev, next, i)),
    decreases n,
{
    if n > 0 {
        lemma_delta(prev, next, n - 1);
        lemma_line(next, n - 1);
        let l = line(next, n - 1);
        assert forall|j: int| 0 <= j < l.len() implies '\0' <= #[trigger] l[j] <= '\u{7f}' by {
            if j < l.len() - 1 {
                assert(l.drop_last()[j] == l[j]);
            }
        }
        if is_sent(prev, next, n - 1) {
            let all = delta(prev, next, n);
            assert(all.last() == l.last());
        }
    }
}

/// The last newline among the bytes from `low` up to `high`.
pub open spec fn last_newline(text: Seq<u8>, low: int, high: int) -> Option<int>
    decreases high - low,
{
    if high <= low {
        None
    } else if text[high - 1] == 10 {
        Some(high - 1)
    } else {
        last_newline(text, low, high - 1)
    }
}

/// Where the write that starts at `start` ends: with the text if that fits in
/// an atomic write, and otherwise behind the last line that does. Nowhere if
/// not even one line fits.
pub open spec fn write_end(text: Seq<u8>, start: int) -> Option<int> {
    if text.len() - start <= PIPE_BUF {
        Some(text.len() as int)
    } else {
        match last_newline(text, start, start + PIPE_BUF) {
            Some(at) => Some(at + 1),
            None => None,
        }
    }
}

/// Finds where the write that starts at `start` ends.
pub fn chunk_end(text: &[u8], start: usize) -> (r: Option<usize>)
    requires
        start <= text@.len(),
    ensures
        r is Some <==> write_end(text@, start as int) is Some,
        r matches Some(end) ==> end == write_end(text@, start as int)->0,
{
    let len = text.len();
    if len - start <= PIPE_BUF {
        return Some(len);
    }
    let mut high: usize = start + PIPE_BUF;
    while high > start
        invariant
            start <= high <= len == text@.len(),
            last_newline(text@, start as int, start + PIPE_BUF) == last_newline(
                text@,
                start as int,
                high as int,
            ),
            len - start > PIPE_BUF,
        decreases high,
    {
        if text[high - 1] == 10 {
            return Some(high);
        }
        high = high - 1;
    }
    // A single line longer than an atomic write cannot happen with the fixed
    // command set above, but refuse to tear one if it did.
    None
}

/// What became of a write.
#[derive(Clone, Copy, Debug, PartialEq, Eq, Structural)]
pub enum Event {
    /// Nothing was written yet.
    Begin,
    /// This many bytes were taken.
    Wrote(usize),
    /// The pipe was full.
    Full,
    /// There is no reader any more.
    ReaderGone,
    /// The write failed for another reason.
    Failed,
}

/// What became of a write of which so many bytes were taken, or that failed.
pub open spec fn event_of(taken: Option<usize>, would_block: bool, broken: bool) -> Event {
    match taken {
        Some(n) => Event::Wrote(n),
        None => if would_block {
            Event::Full
        } else if broken {
            Event::ReaderGone
        } else {
            Event::Failed
        },
    }
}

/// Says what became of a write: how many bytes were taken, or `None` where it
/// failed, because the pipe was full, because there is no reader, or for another
/// reason.
pub fn after_write(taken: Option<usize>, would_block: bool, broken: bool) -> (r: Event)
    ensures
        r == event_of(taken, would_block, broken),
{
    match taken {
        Some(n) => Event::Wrote(n),
        None => if would_block {
            Event::Full
        } else if broken {
            Event::ReaderGone
        } else {
            Event::Failed
        },
    }
}

/// What there is in the place of the FIFO.
#[derive(Clone, Copy, Debug, PartialEq, Eq, Structural)]
pub enum Found {
    Fifo,
    /// Something else.
    Other,
    Nothing,
    /// It could not be found out.
    Unreadable,
}

/// How the FIFO comes to be there.
#[derive(Clone, Copy, Debug, PartialEq, Eq, Structural)]
pub enum Creation {
    /// It is there already.
    Keep,
    Make,
    /// Something is in its place, and has to be removed first.
    Refuse,
    /// Report the failure.
    Fail,
}

/// How the FIFO comes to be there, given what there is in its place.
pub open spec fn creation(found: Found) -> Creation {
    match found {
        Found::Fifo => Creation::Keep,
        Found::Other => Creation::Refuse,
        Found::Nothing => Creation::Make,
        Found::Unreadable => Creation::Fail,
    }
}

/// Decides how the FIFO comes to be there. A stale regular file would silently
/// swallow every write, so insist on an actual FIFO.
pub fn create(found: Found) -> (r: Creation)
    ensures
        r == creation(found),
{
    match found {
        Found::Fifo => Creation::Keep,
        Found::Other => Creation::Refuse,
        Found::Nothing => Creation::Make,
        Found::Unreadable => Creation::Fail,
    }
}

/// What to do about it.
#[derive(Clone, Copy, Debug, PartialEq, Eq, Structural)]
pub enum Action {
    /// Write the bytes from the first position up to the second.
    Write(usize, usize),
    /// The update is over.
    Done,
    /// Close the pipe; the update is over.
    Close,
    /// Close the pipe and report the failure.
    CloseAndFail,
}

/// One update on its way to Dolphin.
pub struct Flush {
    text: Vec<u8>,
    start: usize,
    end: usize,
    state: GcState,
}

impl Flush {
    #[verifier::type_invariant]
    pub closed spec fn wf(self) -> bool {
        self.start <= self.end <= self.text@.len()
    }

    /// The bytes of the whole update.
    pub closed spec fn bytes_view(self) -> Seq<u8> {
        self.text@
    }

    /// How many of them have landed.
    pub closed spec fn landed(self) -> int {
        self.start as int
    }

    /// Where the write under way ends.
    pub closed spec fn pending_end(self) -> int {
        self.end as int
    }

    /// The state that the update brings Dolphin to.
    pub closed spec fn target(self) -> GcState {
        self.state
    }

    /// The bytes of the whole update.
    pub fn bytes(&self) -> (r: &[u8])
        ensures
            r@ == self.bytes_view(),
    {
        self.text.as_slice()
    }
}

/// The driver's side of a named FIFO that Dolphin reads as a controller.
pub struct DolphinPipe {
    open: bool,
    /// State Dolphin has actually acknowledged receipt of, by way of a
    /// successful write. Only advances when bytes leave.
    committed: Option<GcState>,
    dropped: u64,
}

impl DolphinPipe {
    /// Whether Dolphin has the read end open, as far as is known.
    pub closed spec fn connected(self) -> bool {
        self.open
    }

    /// The state that Dolphin has received.
    pub closed spec fn received(self) -> Option<GcState> {
        self.committed
    }

    /// The number of updates dropped.
    pub closed spec fn drops(self) -> int {
        self.dropped as int
    }

    /// A pipe that is not open yet.
    pub fn new() -> (r: DolphinPipe)
        ensures
            !r.connected(),
            r.received() is None,
            r.drops() == 0,
    {
        DolphinPipe { open: false, committed: None, dropped: 0 }
    }

    /// Whether Dolphin currently has the read end open.
    pub fn is_connected(&self) -> (r: bool)
        ensures
            r == self.connected(),
    {
        self.open
    }

    /// Number of updates dropped because Dolphin was not draining the pipe.
    pub fn dropped(&self) -> (r: u64)
        ensures
            r == self.drops(),
    {
        self.dropped
    }

    /// The write end was opened. A fresh reader knows nothing about us, so the
    /// whole state is replayed.
    fn opened(&mut self)
        ensures
            final(self).connected(),
            final(self).received() is None,
            final(self).drops() == old(self).drops(),
    {
        self.open = true;
        self.committed = None;
    }

    /// The write end was closed.
    pub fn closed(&mut self)
        ensures
            !final(self).connected(),
            final(self).received() is None,
            final(self).drops() == old(self).drops(),
    {
        self.open = false;
        self.committed = None;
    }

    /// Appends the commands needed to move Dolphin from `prev` to `next`.
    ///
    /// `prev` of `None` gives a full state sync, which a newly-attached reader
    /// needs since it starts from Dolphin's own defaults.
    pub fn encode_delta(buf: &mut String, prev: Option<&GcState>, next: &GcState)
        ensures
            final(buf)@ == old(buf)@ + delta(owned(prev), *next, CONTROLS as int),
    {
        for i in 0..CONTROLS
            invariant
                buf@ == old(buf)@ + delta(owned(prev), *next, i as int),
        {
            // Compare what would be printed, so we stay quiet under sensor noise
            // but never skip a change Dolphin could have seen.
            let changed = match prev {
                None => true,
                Some(p) => !looks_alike(p, next, i),
            };
            if changed {
                push_line(buf, next, i);
            }
            assert(buf@ =~= old(buf)@ + delta(owned(prev), *next, i + 1));
        }
    }

    /// Prepares an update to `state`: what Dolphin has to be sent, given what
    /// it has received.
    fn prepare(&self, state: &GcState) -> (r: Flush)
        ensures
            prepared(*self, *state, r),
    {
        let mut buf = String::new();
        match &self.committed {
            Some(p) => Self::encode_delta(&mut buf, Some(p), state),
            None => Self::encode_delta(&mut buf, None, state),
        }
        Flush { text: buf.as_str().as_bytes_vec(), start: 0, end: 0, state: *state }
    }

    /// Pushes `state` to Dolphin: gives the update to make, or `None` where the
    /// write end has to be opened first.
    pub fn update(&self, state: &GcState) -> (r: Option<Flush>)
        ensures
            offers(*self, *state, r),
    {
        if self.open {
            Some(self.prepare(state))
        } else {
            None
        }
    }

    /// Goes on with pushing `state` once opening the write end was tried. That
    /// it could not be opened is the normal state before Dolphin launches: the
    /// update is over, and nothing has changed.
    pub fn tried_open(&mut self, opened: bool, state: &GcState) -> (r: Option<Flush>)
        ensures
            attaches(*old(self), *final(self), opened, *state, r),
    {
        if opened {
            self.opened();
            Some(self.prepare(state))
        } else {
            None
        }
    }

    /// Goes on with an update from what has landed: writes the next lines, or
    /// commits the state once all of them have landed.
    fn proceed(&mut self, flush: &mut Flush) -> (r: Action)
        ensures
            final(self).connected() == old(self).connected(),
            final(self).drops() == old(self).drops(),
            final(flush).bytes_view() == old(flush).bytes_view(),
            final(flush).target() == old(flush).target(),
            final(flush).landed() == old(flush).landed(),
            goes_on(*old(self), *final(self), *old(flush), *final(flush), r),
    {
        proof {
            use_type_invariant(&*flush);
        }
        let start = flush.start;
        if start < flush.text.len() {
            if let Some(end) = chunk_end(flush.text.as_slice(), start) {
                proof {
                    lemma_write_end(flush.text@, start as int);
                }
                flush.end = end;
                return Action::Write(start, end);
            }
            return Action::Done;
        }
        self.committed = Some(flush.state);
        Action::Done
    }

    /// Moves an update on by what became of its last write.
    pub fn step(&mut self, flush: &mut Flush, event: Event) -> (r: Action)
        ensures
            carries_on(*old(self), *final(self), *old(flush), *final(flush), event, r),
    {
        match event {
            Event::Begin => {
                if flush.text.len() == 0 {
                    Action::Done
                } else {
                    self.proceed(flush)
                }
            },
            Event::Wrote(n) => {
                proof {
                    use_type_invariant(&*flush);
                }
                if n == flush.end - flush.start {
                    flush.start = flush.end;
                    self.proceed(flush)
                } else {
                    self.drop_update()
                }
            },
            Event::Full => self.drop_update(),
            Event::ReaderGone => {
                self.closed();
                Action::Close
            },
            Event::Failed => {
                self.closed();
                Action::CloseAndFail
            },
        }
    }

    /// The pipe is full. The committed state stays where it is, so the unsent
    /// remainder is recomputed and retried on the next report.
    fn drop_update(&mut self) -> (r: Action)
        ensures
            gives_up(*old(self), *final(self), r),
    {
        self.dropped = self.dropped.saturating_add(1);
        Action::Done
    }
}

/// An update to `state`, nothing of which has landed yet: the commands that
/// move Dolphin there from what it has received.
pub open spec fn prepared(pipe: DolphinPipe, state: GcState, flush: Flush) -> bool {
    &&& flush.bytes_view() == encode_utf8(delta(pipe.received(), state, CONTROLS as int))
    &&& flush.landed() == 0
    &&& flush.pending_end() == 0
    &&& flush.target() == state
}

/// An update goes on: the next lines are written and nothing is committed yet,
/// or all of them have landed and the state is committed. A line too long for
/// an atomic write ends the update without committing it.
pub open spec fn goes_on(
    before: DolphinPipe,
    after: DolphinPipe,
    from: Flush,
    to: Flush,
    action: Action,
) -> bool {
    let (text, start) = (from.bytes_view(), from.landed());
    if start < text.len() {
        &&& after.received() == before.received()
        &&& match write_end(text, start) {
            Some(end) => action == Action::Write(start as usize, end as usize) && to.pending_end()
                == end,
            None => action == Action::Done,
        }
    } else {
        &&& action == Action::Done
        &&& after.received() == Some(from.target())
    }
}

/// What is to be written for a state: nothing before the write end is open.
pub open spec fn offers(pipe: DolphinPipe, state: GcState, r: Option<Flush>) -> bool {
    &&& r is Some == pipe.connected()
    &&& r matches Some(flush) ==> prepared(pipe, state, flush)
}

/// What trying to open the write end leads to: a reader that nothing is known of, and
/// all of the state to be written to it; or nothing.
pub open spec fn attaches(
    before: DolphinPipe,
    after: DolphinPipe,
    opened: bool,
    state: GcState,
    r: Option<Flush>,
) -> bool {
    &&& r is Some == opened
    &&& opened ==> {
        &&& after.connected()
        &&& after.received() is None
        &&& after.drops() == before.drops()
        &&& prepared(after, state, r->0)
    }
    &&& !opened ==> after == before
}

/// How what became of a write moves an update on.
pub open spec fn carries_on(
    before: DolphinPipe,
    after: DolphinPipe,
    from: Flush,
    to: Flush,
    event: Event,
    action: Action,
) -> bool {
    &&& to.bytes_view() == from.bytes_view()
    &&& to.target() == from.target()
    &&& match event {
        Event::Begin => {
            &&& after.connected() == before.connected()
            &&& after.drops() == before.drops()
            &&& to.landed() == from.landed()
            &&& if from.bytes_view().len() == 0 {
                action == Action::Done && after.received() == before.received()
            } else {
                goes_on(before, after, from, to, action)
            }
        },
        Event::Wrote(n) => {
            if n == from.pending_end() - from.landed() {
                &&& after.connected() == before.connected()
                &&& after.drops() == before.drops()
                &&& to.landed() == from.pending_end()
                &&& goes_on(before, after, to, to, action)
            } else {
                // Not all of it landed: dropped, and to be sent again.
                gives_up(before, after, action)
            }
        },
        Event::Full => gives_up(before, after, action),
        Event::ReaderGone => action == Action::Close && shuts(before, after),
        Event::Failed => action == Action::CloseAndFail && shuts(before, after),
    }
}

/// An update is given up: it counts as dropped, as far as the count goes, and
/// what Dolphin has received is unchanged.
pub open spec fn gives_up(before: DolphinPipe, after: DolphinPipe, action: Action) -> bool {
    &&& action == Action::Done
    &&& after.connected() == before.connected()
    &&& after.received() == before.received()
    &&& after.drops() == if before.drops() < u64::MAX {
        before.drops() + 1
    } else {
        before.drops()
    }
}

/// The pipe is closed, and nothing is known of the next reader.
pub open spec fn shuts(before: DolphinPipe, after: DolphinPipe) -> bool {
    &&& !after.connected()
    &&& after.received() is None
    &&& after.drops() == before.drops()
}

/// A write takes at least one byte, at most as many as stay atomic, and ends
/// with the text or behind a newline.
pub proof fn lemma_write_end(text: Seq<u8>, start: int)
    requires
        0 <= start < text.len(),
    ensures
        write_end(text, start) matches Some(end) ==> {
            &&& start < end <= text.len()
            &&& end - start <= PIPE_BUF
            &&& end == text.len() || text[end - 1] == 10
        },
{
    if text.len() - start > PIPE_BUF {
        lemma_last_newline(text, start, start + PIPE_BUF);
    }
}

/// The last newline is one, and stands where it was looked for; and where none is found,
/// there is none.
pub proof fn lemma_last_newline(text: Seq<u8>, low: int, high: int)
    requires
        0 <= low <= high <= text.len(),
    ensures
        last_newline(text, low, high) matches Some(at) ==> low <= at < high && text[at] == 10,
        last_newline(text, low, high) is None ==> forall|i: int|
            low <= i < high ==> text[i] != 10,
    decreases high - low,
{
    if high > low && text[high - 1] != 10 {
        lemma_last_newline(text, low, high - 1);
    }
}

/// A steady controller produces no traffic, and neither does a change that
/// would not show at the printed precision.
pub proof fn law_unchanged_controls_are_silent(prev: GcState, next: GcState)
    requires
        well_formed(next),
        forall|i: int| 0 <= i < CONTROLS ==> #[trigger] seen(prev, i) == seen(next, i),
    ensures
        delta(Some(prev), next, CONTROLS as int) == Seq::<char>::empty(),
{
    lemma_delta(Some(prev), next, CONTROLS as int);
    assert(delta(Some(prev), next, CONTROLS as int) =~= Seq::<char>::empty());
}

/// Silence means that there was nothing to see: if no command is sent, Dolphin
/// would see every control alike in both states.
pub proof fn law_silence_hides_nothing(prev: GcState, next: GcState)
    requires
        well_formed(next),
        delta(Some(prev), next, CONTROLS as int).len() == 0,
    ensures
        forall|i: int| 0 <= i < CONTROLS ==> #[trigger] seen(prev, i) == seen(next, i),
{
    lemma_delta(Some(prev), next, CONTROLS as int);
    assert forall|i: int| 0 <= i < CONTROLS implies #[trigger] seen(prev, i) == seen(next, i) by {
        assert(!is_sent(Some(prev), next, i));
    }
}

/// What Dolphin sees of each control once it has read the commands that are
/// sent: a command sets its own control, and leaves the others.
pub open spec fn updated(
    view: Seq<Seen>,
    prev: Option<GcState>,
    next: GcState,
) -> Seq<Seen> {
    Seq::new(
        view.len(),
        |i: int|
            if is_sent(prev, next, i) {
                seen(next, i)
            } else {
                view[i]
            },
    )
}

/// What Dolphin sees of a whole state.
pub open spec fn view_of(s: GcState) -> Seq<Seen> {
    Seq::new(CONTROLS as nat, |i: int| seen(s, i))
}

/// An update brings Dolphin to the new state: from the state it has received,
/// and from any state where it has received none.
pub proof fn law_an_update_brings_dolphin_up_to_date(
    view: Seq<Seen>,
    prev: Option<GcState>,
    next: GcState,
)
    requires
        view.len() == CONTROLS,
        prev matches Some(p) ==> view == view_of(p),
    ensures
        updated(view, prev, next) == view_of(next),
{
    assert(updated(view, prev, next) =~= view_of(next));
}

/// Every update goes out in one atomic write, so it lands whole or not at all.
pub proof fn law_an_update_is_one_atomic_write(prev: Option<GcState>, next: GcState)
    requires
        well_formed(next),
    ensures
        encode_utf8(delta(prev, next, CONTROLS as int)).len() <= PIPE_BUF,
        write_end(encode_utf8(delta(prev, next, CONTROLS as int)), 0) == Some(
            encode_utf8(delta(prev, next, CONTROLS as int)).len() as int,
        ),
{
    lemma_delta(prev, next, CONTROLS as int);
    is_ascii_chars_encode_utf8(delta(prev, next, CONTROLS as int));
}

/// An update that lands is committed: all of it is written at once, and when
/// that has landed, the state is the one that Dolphin has received.
pub proof fn law_an_update_that_lands_is_committed(
    before: DolphinPipe,
    during: DolphinPipe,
    after: DolphinPipe,
    begun: Flush,
    written: Flush,
    landed: Flush,
    first: Action,
    last: Action,
    state: GcState,
)
    requires
        well_formed(state),
        prepared(before, state, begun),
        0 < begun.bytes_view().len() <= usize::MAX,
        goes_on(before, during, begun, written, first),
        landed.bytes_view() == begun.bytes_view(),
        landed.target() == begun.target(),
        landed.landed() == written.pending_end(),
        goes_on(during, after, landed, landed, last),
    ensures
        first == Action::Write(0, begun.bytes_view().len() as usize),
        during.received() == before.received(),
        last == Action::Done,
        after.received() == Some(state),
{
    law_an_update_is_one_atomic_write(before.received(), state);
}

/// No write tears a line: one that starts behind a newline ends behind one,
/// where the text as a whole does.
pub proof fn law_writes_keep_lines_whole(text: Seq<u8>, start: int)
    requires
        0 <= start < text.len(),
        text.last() == 10,
    ensures
        write_end(text, start) matches Some(end) ==> start < end <= start + PIPE_BUF && text[end
            - 1] == 10,
{
    lemma_write_end(text, start);
}

/// Dropped updates are self-healing: the next one that lands brings Dolphin up
/// to date, whatever was lost.
pub proof fn law_a_dropped_update_heals(
    before: DolphinPipe,
    after: DolphinPipe,
    action: Action,
    view: Seq<Seen>,
    next: GcState,
)
    requires
        gives_up(before, after, action),
        view.len() == CONTROLS,
        before.received() matches Some(p) ==> view == view_of(p),
    ensures
        updated(view, after.received(), next) == view_of(next),
{
    law_an_update_brings_dolphin_up_to_date(view, after.received(), next);
}

/// A command says which control it sets and to what: two that read alike set
/// the same control, to what Dolphin sees alike.
pub proof fn law_commands_are_unambiguous(a: GcState, i: int, b: GcState, j: int)
    requires
        well_formed(a),
        well_formed(b),
        0 <= i < CONTROLS,
        0 <= j < CONTROLS,
        line(a, i) == line(b, j),
    ensures
        i == j,
        seen(a, i) == seen(b, j),
{
    reveal_strlit("\n");
    reveal_strlit("PRESS ");
    reveal_strlit("RELEASE ");
    reveal_strlit("SET ");
    reveal_strlit(" ");
    let (l, m) = (line(a, i), line(b, j));
    lemma_name(i);
    lemma_name(j);
    lemma_names(i, j);
    let (ni, nj) = (control_name(i), control_name(j));
    if i < BUTTONS {
        let verb = if held(a, i) {
            "PRESS "@
        } else {
            "RELEASE "@
        };
        assert(l[0] == verb[0]);
        assert(j < BUTTONS) by {
            if j >= BUTTONS {
                assert(m[0] == 'S');
            }
        }
        assert(held(a, i) == held(b, j)) by {
            assert(m[0] == (if held(b, j) {
                'P'
            } else {
                'R'
            }));
        }
        let k = verb.len() as int;
        assert(l.subrange(k, l.len() - 1) =~= ni);
        assert(m.subrange(k, m.len() - 1) =~= nj);
    } else {
        assert(l[0] == 'S');
        assert(j >= BUTTONS) by {
            if j < BUTTONS {
                assert(m[0] == (if held(b, j) {
                    'P'
                } else {
                    'R'
                }));
            }
        }
        assert(l[4] == ni[0] && m[4] == nj[0]);
        assert(ni == nj);
        let k = 5 + ni.len() as int;
        if i < 14 {
            let (ax, ay) = stick(a, i);
            let (bx, by) = stick(b, i);
            ax.lemma_bounds();
            ay.lemma_bounds();
            bx.lemma_bounds();
            by.lemma_bounds();
            lemma_unit_axis_bounds(ax.units());
            lemma_unit_axis_bounds(ay.units());
            lemma_unit_axis_bounds(bx.units());
            lemma_unit_axis_bounds(by.units());
            lemma_steps_text(on_unit_axis(ax.units()));
            lemma_steps_text(on_unit_axis(ay.units()));
            lemma_steps_text(on_unit_axis(bx.units()));
            lemma_steps_text(on_unit_axis(by.units()));
            assert(l.subrange(k, k + 6) =~= steps_text(axis_steps(ax), 4));
            assert(m.subrange(k, k + 6) =~= steps_text(axis_steps(bx), 4));
            assert(l.subrange(k + 7, k + 13) =~= steps_text(axis_steps(ay), 4));
            assert(m.subrange(k + 7, k + 13) =~= steps_text(axis_steps(by), 4));
            lemma_steps_read_back(on_unit_axis(ax.units()), on_unit_axis(bx.units()));
            lemma_steps_read_back(on_unit_axis(ay.units()), on_unit_axis(by.units()));
        } else {
            let (ra, rb) = (trigger(a, i), trigger(b, i));
            ra.lemma_bounds();
            rb.lemma_bounds();
            lemma_steps_text(ra.magnitude());
            lemma_steps_text(rb.magnitude());
            reveal_strlit("-");
            reveal_with_fuel(power_of_ten, 5);
            let ta = steps_text(decimal(ra.magnitude(), 10_000), 4);
            let tb = steps_text(decimal(rb.magnitude(), 10_000), 4);
            assert(reading_text(ra, 4, false) =~= sign_text(ra.is_negative(), false) + ta);
            assert(reading_text(rb, 4, false) =~= sign_text(rb.is_negative(), false) + tb);
            assert(l.len() == k + sign_text(ra.is_negative(), false).len() + 7);
            assert(m.len() == k + sign_text(rb.is_negative(), false).len() + 7);
            assert(ra.is_negative() == rb.is_negative());
            assert(l.subrange(l.len() - 7, l.len() - 1) =~= ta);
            assert(m.subrange(l.len() - 7, l.len() - 1) =~= tb);
            lemma_steps_read_back(ra.magnitude(), rb.magnitude());
        }
    }
}

/// Among the buttons, and among the other controls, names tell controls apart,
/// by their first letter where they are not buttons.
proof fn lemma_names(i: int, j: int)
    requires
        0 <= i < CONTROLS,
        0 <= j < CONTROLS,
    ensures
        control_name(i) == control_name(j) && i < BUTTONS && j < BUTTONS ==> i == j,
        control_name(i)[0] == control_name(j)[0] && i >= BUTTONS && j >= BUTTONS ==> i == j,
{
    reveal_strlit("A");
    reveal_strlit("B");
    reveal_strlit("X");
    reveal_strlit("Y");
    reveal_strlit("Z");
    reveal_strlit("START");
    reveal_strlit("L");
    reveal_strlit("R");
    reveal_strlit("D_UP");
    reveal_strlit("D_DOWN");
    reveal_strlit("D_LEFT");
    reveal_strlit("D_RIGHT");
    reveal_strlit("MAIN");
    reveal_strlit("C");
    let (a, b) = (control_name(i), control_name(j));
    if a == b && i < BUTTONS && j < BUTTONS {
        assert(a.len() == b.len());
        assert(a[0] == b[0]);
        assert(a[2] == b[2]);
    }
}

proof fn lemma_steps_read_back(u: int, v: int)
    requires
        0 <= u <= one(),
        0 <= v <= one(),
        steps_text(decimal(u, 10_000), 4) == steps_text(decimal(v, 10_000), 4),
    ensures
        decimal(u, 10_000) == decimal(v, 10_000),
{
    reveal_strlit(".");
    reveal_with_fuel(power_of_ten, 5);
    let (n, m) = (decimal(u, 10_000), decimal(v, 10_000));
    lemma_decimal_bounds(u);
    lemma_decimal_bounds(v);
    let (tn, tm) = (steps_text(n, 4), steps_text(m, 4));
    lemma_digits(n / 10_000, 10, 1);
    lemma_digits(m / 10_000, 10, 1);
    lemma_digits(n % 10_000, 10, 4);
    lemma_digits(m % 10_000, 10, 4);
    assert(tn.subrange(0, 1) =~= digits(n / 10_000, 10, 1));
    assert(tm.subrange(0, 1) =~= digits(m / 10_000, 10, 1));
    assert(tn.subrange(2, 6) =~= digits(n % 10_000, 10, 4));
    assert(tm.subrange(2, 6) =~= digits(m % 10_000, 10, 4));
    reveal_with_fuel(digits, 5);
    let (dn, dm) = (digits(n % 10_000, 10, 4), digits(m % 10_000, 10, 4));
    assert(dn[0] == dm[0] && dn[1] == dm[1] && dn[2] == dm[2] && dn[3] == dm[3]);
    assert(digits(n / 10_000, 10, 1)[0] == digits(m / 10_000, 10, 1)[0]);
}

proof fn lemma_decimal_bounds(u: int)
    requires
        0 <= u <= one(),
    ensures
        0 <= decimal(u, 10_000) <= 10_000,
{
    lemma_pow2_pos(149);
    lemma_half_even_exact(0, one());
    lemma_half_even_exact(10_000, one());
    lemma_mul_basics(one());
    assert(0 * one() <= (u * 10_000) * one() <= (10_000 * one()) * one()) by (nonlinear_arith)
        requires
            0 <= u <= one(),
            one() > 0,
    ;
    lemma_half_even_monotone(0 * one(), one(), u * 10_000, one());
    lemma_half_even_monotone(u * 10_000, one(), 10_000 * one(), one());
}

} // verus!
