//! What the driver decides, by what was asked for and what came.
use vstd::prelude::*;

use crate::driver::{
    announcement, closes, ensuing, is_new, judged, reacts, routed, After, Closing, Lull, Options,
    Output, Reaction, Route, Session, Transport, Verdict, RETRY_SECS,
};
use crate::latency::{summarises, Link, Report};
use crate::meter::ticks;
use crate::output::dump::line_text;
use crate::protocol::calibration::Calibration;
use crate::protocol::state::{GcState, RawState};
use crate::transport::usb::Poll;

verus! {

/// A way that was asked for is taken, whether or not the controller is plugged in.
/// Where that is left open the cable is taken if it is there, and the air is never
/// taken without saying that the cable is missing.
pub proof fn law_the_way_asked_for_is_taken(transport: Transport, plugged_in: bool)
    ensures
        transport == Transport::Usb ==> routed(transport, plugged_in) == Route::Usb,
        transport == Transport::Ble ==> routed(transport, plugged_in) == Route::Ble,
        transport == Transport::Auto && plugged_in ==> routed(transport, plugged_in) == Route::Usb,
        transport == Transport::Auto && !plugged_in ==> routed(transport, plugged_in)
            == Route::BleInstead,
{
}

/// A run is tried again exactly where it failed by itself and the user wants that; it
/// counts as a failure exactly where it failed by itself and the user does not. The
/// pause before another try is two seconds.
pub proof fn law_a_run_is_tried_again_where_it_failed_by_itself(
    succeeded: bool,
    running: bool,
    reconnect: bool,
)
    ensures
        ensuing(succeeded, running, reconnect) == After::Retry <==> !succeeded && running
            && reconnect,
        ensuing(succeeded, running, reconnect) == After::Fail <==> !succeeded && running
            && !reconnect,
        RETRY_SECS == 2,
{
}

/// Being stopped is not losing the controller: a read that a signal made fail stops the
/// run, and one that failed by itself loses the controller. A quiet link is waited for
/// as long as it is up, and not when it is down or has ended.
pub proof fn law_being_stopped_is_no_loss(lull: Lull, running: bool)
    ensures
        judged(lull, running) == Verdict::Stop <==> lull == Lull::Failed && !running,
        judged(lull, running) == Verdict::Wait <==> lull == Lull::Quiet(true),
{
}

/// The rate is measured where statistics were asked for, and the gaps where a histogram
/// was, on the link that the session is on; nothing has been said or measured yet.
pub proof fn law_a_session_measures_what_was_asked_for(
    s: Session,
    options: Options,
    cal: Calibration,
    link: Link,
)
    requires
        is_new(s, options, cal, link),
    ensures
        s.asked() == options,
        s.calibration() == cal,
        s.rates().is_enabled() <==> options.stats,
        s.gaps().is_enabled() <==> options.histogram,
        s.gaps().measured_link() == link,
        s.rates().counted() == 0 && s.rates().best() is None,
        s.gaps().recorded().len() == 0 && s.gaps().last_report() is None,
        !s.said_attached(),
        !s.said_ignored(),
{
}

/// A report that was decoded goes to Dolphin under the session's calibration, unless a
/// dump was asked for, of whatever kind: it is printed then, and only a raw dump shows
/// its bytes.
pub proof fn law_a_report_goes_where_it_was_asked_to(
    before: Session,
    after: Session,
    raw: RawState,
    frame: Seq<u8>,
    r: Reaction,
)
    requires
        reacts(before, after, Poll::Report(raw), frame, r),
    ensures
        r.output is Push <==> !before.asked().dump && !before.asked().raw,
        r.output is Line <==> before.asked().dump || before.asked().raw,
        r.output matches Output::Push(s) ==> before.calibration().applies(raw, s),
        r.output matches Output::Line(text) ==> exists|s: GcState| #[trigger]
            before.calibration().applies(raw, s) && text@ == line_text(raw, s),
        r.hex <==> before.asked().raw,
        r.note is None,
{
}

/// Only a report that was decoded is measured: what a read without one gives leaves
/// both measurements as they are, and leads to no output.
pub proof fn law_only_reports_are_measured(
    before: Session,
    after: Session,
    poll: Poll,
    frame: Seq<u8>,
    r: Reaction,
)
    requires
        reacts(before, after, poll, frame, r),
    ensures
        !(poll is Report) ==> {
            &&& after.rates() == before.rates()
            &&& after.gaps() == before.gaps()
            &&& r.rate is None
            &&& r.output is Nothing
        },
        poll is Report ==> exists|now: u128, later: u128| #[trigger]
            ticks(before.rates(), after.rates(), now, later, r.rate),
        poll is Idle ==> r.note is None && !r.hex && after.said_ignored() == before.said_ignored(),
        poll is Unknown ==> (r.hex <==> before.asked().raw),
        after.asked() == before.asked(),
        after.calibration() == before.calibration(),
        after.said_attached() == before.said_attached(),
        after.gaps().measured_link() == before.gaps().measured_link(),
{
}

/// A report that is not decoded is remarked upon once in a wired session, by its first
/// byte and its length, and not again; in a wireless one it never is.
pub proof fn law_an_ignored_report_is_remarked_upon_once(
    before: Session,
    between: Session,
    after: Session,
    n: usize,
    m: usize,
    first: Seq<u8>,
    second: Seq<u8>,
    r: Reaction,
    q: Reaction,
)
    requires
        reacts(before, between, Poll::Unknown(n), first, r),
        reacts(between, after, Poll::Unknown(m), second, q),
    ensures
        before.gaps().measured_link() == Link::Wireless ==> r.note is None && q.note is None,
        before.gaps().measured_link() == Link::Wired && !before.said_ignored() && first.len() > 0
            ==> r.note == Some((first[0], n)),
        before.gaps().measured_link() == Link::Wired && !before.said_ignored() && first.len() == 0
            ==> r.note == Some((0u8, n)),
        q.note is None,
{
}

/// The reader's coming and going is announced exactly when it is news, and as it is.
pub proof fn law_news_of_the_reader_is_announced(said: bool, connected: bool)
    ensures
        announcement(said, connected) is Some <==> said != connected,
        announcement(said, connected) matches Some(news) ==> news == connected,
{
}

/// When a session is over, lost updates are told where there were any, the best rate as
/// it was measured, and the gaps where they were asked for and there are two of them.
pub proof fn law_a_session_closes_with_what_there_is_to_say(
    s: Session,
    dropped: Option<u64>,
    r: Closing,
)
    requires
        closes(s, dropped, r),
    ensures
        r.dropped is Some <==> dropped is Some && dropped->0 > 0,
        r.dropped is Some ==> r.dropped == dropped,
        r.peak == s.rates().best(),
        r.report is Off <==> !s.gaps().is_enabled(),
        r.report is TooFew <==> s.gaps().is_enabled() && s.gaps().recorded().len() <= 1,
        r.report matches Report::Measured(m) ==> summarises(
            m,
            s.gaps().measured_link(),
            s.gaps().recorded(),
        ),
{
}

} // verus!
