//! The driver's decisions: which way to reach the controller, what to do with
//! each report, and when to stop.
use vstd::prelude::*;

use crate::latency::{reports, ticked, Histogram, Link, Report};
use crate::meter::{ticks, Meter};
use crate::output::dump::{dump, line_text};
use crate::protocol::calibration::Calibration;
use crate::protocol::state::GcState;
use crate::transport::usb::Poll;

pub mod laws;

verus! {

/// How to reach the controller.
#[derive(Copy, Clone, PartialEq, Eq, Debug, Structural)]
pub enum Transport {
    /// Use the cable if the controller is plugged in, otherwise go wireless.
    Auto,
    /// Wired. Claims the vendor interface; reports arrive at the controller's
    /// own rate rather than the HID interface's 125 Hz.
    Usb,
    /// Wireless. Convenient, but the link caps out around 70 Hz.
    Ble,
}

/// The way that is taken.
#[derive(Copy, Clone, PartialEq, Eq, Debug, Structural)]
pub enum Route {
    Usb,
    Ble,
    /// Wireless, for want of a cable.
    BleInstead,
}

/// The way to the controller: the one that was asked for, or else the cable if the
/// controller is plugged in, and the air if not.
pub open spec fn routed(transport: Transport, plugged_in: bool) -> Route {
    match transport {
        Transport::Usb => Route::Usb,
        Transport::Ble => Route::Ble,
        Transport::Auto => if plugged_in {
            Route::Usb
        } else {
            Route::BleInstead
        },
    }
}

/// Picks the way to the controller. The cable is preferred, being the
/// lower-latency path, but only where that is left open. `plugged_in` matters
/// only then.
pub fn route(transport: Transport, plugged_in: bool) -> (r: Route)
    ensures
        r == routed(transport, plugged_in),
{
    match transport {
        Transport::Usb => Route::Usb,
        Transport::Ble => Route::Ble,
        Transport::Auto => if plugged_in {
            Route::Usb
        } else {
            Route::BleInstead
        },
    }
}

/// The pause before a retry, in seconds.
pub const RETRY_SECS: u64 = 2;

/// What follows when a run is over.
#[derive(Copy, Clone, PartialEq, Eq, Debug, Structural)]
pub enum After {
    /// Leave, and report success.
    Exit,
    /// Say what went wrong, pause, and pick a way anew.
    Retry,
    /// Leave, and report what went wrong.
    Fail,
}

/// What follows when a run is over: the end if it succeeded or the program is being
/// stopped, and otherwise another try where the user wants one.
pub open spec fn ensuing(succeeded: bool, running: bool, reconnect: bool) -> After {
    if succeeded || !running {
        After::Exit
    } else if reconnect {
        After::Retry
    } else {
        After::Fail
    }
}

/// Decides what follows when a run is over. A signal during startup aborts
/// whatever we were in the middle of: that is a shutdown, not a failure, and
/// must not trigger a retry.
pub fn after_run(succeeded: bool, running: bool, reconnect: bool) -> (r: After)
    ensures
        r == ensuing(succeeded, running, reconnect),
{
    if succeeded || !running {
        After::Exit
    } else if reconnect {
        After::Retry
    } else {
        After::Fail
    }
}

/// Why there is no report.
#[derive(Copy, Clone, PartialEq, Eq, Debug, Structural)]
pub enum Lull {
    /// The read failed.
    Failed,
    /// The stream of reports has ended.
    Ended,
    /// Nothing came for a while, over a link that is or is not up.
    Quiet(bool),
}

/// What to do without a report.
#[derive(Copy, Clone, PartialEq, Eq, Debug, Structural)]
pub enum Verdict {
    /// Look again.
    Wait,
    /// Stop as asked.
    Stop,
    /// The controller is gone.
    Lost,
}

/// What to do without a report: stop if a signal made the read fail, wait while a
/// link that is up is quiet, and otherwise take the controller to be gone.
pub open spec fn judged(lull: Lull, running: bool) -> Verdict {
    match lull {
        Lull::Failed => if running {
            Verdict::Lost
        } else {
            Verdict::Stop
        },
        Lull::Ended => Verdict::Lost,
        Lull::Quiet(up) => if up {
            Verdict::Wait
        } else {
            Verdict::Lost
        },
    }
}

/// Decides what to do without a report. A signal interrupts a blocking read;
/// that is a shutdown, not a disconnected controller.
pub fn on_lull(lull: Lull, running: bool) -> (r: Verdict)
    ensures
        r == judged(lull, running),
{
    match lull {
        Lull::Failed => if running {
            Verdict::Lost
        } else {
            Verdict::Stop
        },
        Lull::Ended => Verdict::Lost,
        Lull::Quiet(up) => if up {
            Verdict::Wait
        } else {
            Verdict::Lost
        },
    }
}

/// What the user asked for.
#[derive(Copy, Clone, PartialEq, Eq, Debug, Structural)]
pub struct Options {
    /// Print decoded input instead of driving Dolphin.
    pub dump: bool,
    /// Hex-dump every raw report. Implies `dump`.
    pub raw: bool,
    /// Report the achieved poll rate once a second.
    pub stats: bool,
    /// Measure the gap between consecutive reports.
    pub histogram: bool,
}

impl Options {
    /// Whether decoded input is printed instead of driving Dolphin.
    pub open spec fn prints(self) -> bool {
        self.dump || self.raw
    }

    /// Whether Dolphin is driven.
    pub fn drives_dolphin(&self) -> (r: bool)
        ensures
            r == !self.prints(),
    {
        !(self.dump || self.raw)
    }
}

/// Where a decoded report goes.
#[derive(Debug)]
pub enum Output {
    /// There is none.
    Nothing,
    /// To the terminal.
    Line(String),
    /// To Dolphin.
    Push(GcState),
}

/// What to do about a poll.
#[derive(Debug)]
pub struct Reaction {
    /// The ID and the length of a report that is ignored, where that is worth
    /// saying.
    pub note: Option<(u8, usize)>,
    /// The rate, where a measuring window is over.
    pub rate: Option<u32>,
    /// Whether the raw report is dumped.
    pub hex: bool,
    pub output: Output,
}

/// One session with a controller that streams.
pub struct Session {
    options: Options,
    cal: Calibration,
    meter: Meter,
    hist: Histogram,
    attached: bool,
    noted: bool,
}

/// The first byte of a report, or 0 if it has none.
pub open spec fn report_id(frame: Seq<u8>) -> u8 {
    if frame.len() > 0 {
        frame[0]
    } else {
        0
    }
}

/// What is announced of the reader, given what was said of it last.
pub open spec fn announcement(said: bool, connected: bool) -> Option<bool> {
    if connected == said {
        None
    } else {
        Some(connected)
    }
}

impl Session {
    /// What the user asked for.
    pub closed spec fn asked(self) -> Options {
        self.options
    }

    /// The controller's calibration.
    pub closed spec fn calibration(self) -> Calibration {
        self.cal
    }

    /// The rate measurement.
    pub closed spec fn rates(self) -> Meter {
        self.meter
    }

    /// The gap measurement.
    pub closed spec fn gaps(self) -> Histogram {
        self.hist
    }

    /// Whether Dolphin was last said to be attached.
    pub closed spec fn said_attached(self) -> bool {
        self.attached
    }

    /// Whether an ignored report was remarked upon.
    pub closed spec fn said_ignored(self) -> bool {
        self.noted
    }

    /// Starts a session.
    pub fn new(options: Options, cal: Calibration, link: Link) -> (r: Session)
        ensures
            is_new(r, options, cal, link),
    {
        Session {
            options,
            cal,
            meter: Meter::new(options.stats),
            hist: Histogram::new(options.histogram, link),
            attached: false,
            noted: false,
        }
    }

    /// The link that the session is on.
    pub fn link(&self) -> (r: Link)
        ensures
            r == self.gaps().measured_link(),
    {
        self.hist.link()
    }

    /// Decides what to do about a poll, of which `frame` is the raw report.
    pub fn on_poll(&mut self, poll: Poll, frame: &[u8]) -> (r: Reaction)
        ensures
            reacts(*old(self), *final(self), poll, frame@, r),
    {
        match poll {
            Poll::Idle => Reaction { note: None, rate: None, hex: false, output: Output::Nothing },
            Poll::Unknown(n) => {
                let note = if self.noted || self.hist.link() == Link::Wireless {
                    None
                } else {
                    let id: u8 = if frame.len() > 0 {
                        frame[0]
                    } else {
                        0
                    };
                    Some((id, n))
                };
                self.noted = self.noted || note.is_some();
                Reaction { note, rate: None, hex: self.options.raw, output: Output::Nothing }
            },
            Poll::Report(raw) => {
                let rate = self.meter.tick();
                self.hist.tick();
                let output = if self.options.dump || self.options.raw {
                    Output::Line(dump(&raw, &self.cal))
                } else {
                    Output::Push(self.cal.apply(&raw))
                };
                proof {
                    let (now, later) = choose|now: u128, later: u128|
                        ticks(old(self).meter, self.meter, now, later, rate);
                    assert(ticks(old(self).rates(), self.rates(), now, later, rate));
                    let moment = choose|now: u128| ticked(old(self).hist, self.hist, now);
                    assert(ticked(old(self).gaps(), self.gaps(), moment));
                }
                Reaction { note: None, rate, hex: self.options.raw, output }
            },
        }
    }

    /// Says whether the reader's coming or going is to be announced, so it is
    /// obvious whether Dolphin has actually picked the pipe up.
    pub fn announce(&mut self, connected: bool) -> (r: Option<bool>)
        ensures
            r == announcement(old(self).said_attached(), connected),
            final(self).said_attached() == connected,
            final(self).said_ignored() == old(self).said_ignored(),
            final(self).asked() == old(self).asked(),
            final(self).calibration() == old(self).calibration(),
            final(self).rates() == old(self).rates(),
            final(self).gaps() == old(self).gaps(),
    {
        if connected == self.attached {
            return None;
        }
        self.attached = connected;
        Some(connected)
    }

    /// What there is to say when the session is over, given how many updates
    /// were dropped, where Dolphin was driven.
    pub fn finish(&self, dropped: Option<u64>) -> (r: Closing)
        ensures
            closes(*self, dropped, r),
    {
        let lost = match dropped {
            Some(n) => if n > 0 {
                Some(n)
            } else {
                None
            },
            None => None,
        };
        Closing { dropped: lost, peak: self.meter.peak(), report: self.hist.report() }
    }
}

/// What there is to say when a session is over.
pub struct Closing {
    /// Updates dropped because Dolphin was not draining the pipe, if any.
    pub dropped: Option<u64>,
    /// The best report rate, where rates were measured.
    pub peak: Option<u32>,
    pub report: Report,
}

/// Whether a session has just been started, to measure what was asked for on a link.
pub open spec fn is_new(s: Session, options: Options, cal: Calibration, link: Link) -> bool {
    &&& s.asked() == options
    &&& s.calibration() == cal
    &&& s.rates().is_enabled() == options.stats
    &&& s.rates().counted() == 0
    &&& s.rates().began() == 0
    &&& s.rates().best() is None
    &&& s.gaps().is_enabled() == options.histogram
    &&& s.gaps().measured_link() == link
    &&& s.gaps().recorded() == Seq::<u32>::empty()
    &&& s.gaps().last_report() is None
    &&& !s.said_attached()
    &&& !s.said_ignored()
}

/// What a poll, of which `frame` is the raw report, does to a session, and what is to
/// be done about it.
pub open spec fn reacts(
    before: Session,
    after: Session,
    poll: Poll,
    frame: Seq<u8>,
    r: Reaction,
) -> bool {
    &&& after.asked() == before.asked()
    &&& after.calibration() == before.calibration()
    &&& after.said_attached() == before.said_attached()
    &&& after.rates().is_enabled() == before.rates().is_enabled()
    &&& after.gaps().is_enabled() == before.gaps().is_enabled()
    &&& after.gaps().measured_link() == before.gaps().measured_link()
    &&& match poll {
        Poll::Idle => {
            &&& after.rates() == before.rates()
            &&& after.gaps() == before.gaps()
            &&& after.said_ignored() == before.said_ignored()
            &&& r.note is None
            &&& r.rate is None
            &&& !r.hex
            &&& r.output is Nothing
        },
        // Worth surfacing once: a controller sending a report shape we do not
        // decode would otherwise look like a dead driver. Only over the cable do
        // reports start with an ID to surface.
        Poll::Unknown(n) => {
            &&& after.rates() == before.rates()
            &&& after.gaps() == before.gaps()
            &&& after.said_ignored() == (before.said_ignored() || r.note is Some)
            &&& r.note == if before.said_ignored() || before.gaps().measured_link()
                == Link::Wireless {
                None
            } else {
                Some((report_id(frame), n))
            }
            &&& r.rate is None
            &&& r.hex == before.asked().raw
            &&& r.output is Nothing
        },
        Poll::Report(raw) => {
            &&& exists|now: u128, later: u128| #[trigger]
                ticks(before.rates(), after.rates(), now, later, r.rate)
            &&& r.rate is None ==> after.rates().began() == before.rates().began()
            &&& exists|now: u128| #[trigger] ticked(before.gaps(), after.gaps(), now)
            &&& after.said_ignored() == before.said_ignored()
            &&& r.note is None
            &&& r.hex == before.asked().raw
            &&& if before.asked().prints() {
                r.output matches Output::Line(text) && exists|s: GcState| #[trigger]
                    before.calibration().applies(raw, s) && text@ == line_text(raw, s)
            } else {
                r.output matches Output::Push(s) && before.calibration().applies(raw, s)
            }
        },
    }
}

/// What there is to say when a session is over, given how many updates were dropped.
pub open spec fn closes(s: Session, dropped: Option<u64>, r: Closing) -> bool {
    &&& r.dropped == match dropped {
        Some(n) if n > 0 => Some(n),
        _ => None,
    }
    &&& r.peak == s.rates().best()
    &&& reports(s.gaps(), r.report)
}

/// Coming and going are announced in turn, starting with coming: a reader is not
/// said to be attached twice without having been said to be detached in between.
pub proof fn law_announcements_alternate(said: bool, first: bool, second: bool)
    ensures
        announcement(false, first) matches Some(now) ==> now,
        announcement(said, first) is Some && announcement(first, second) is Some
            ==> announcement(said, first) != announcement(first, second),
{
}

} // verus!
