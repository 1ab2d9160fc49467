//! The achieved report rate.
use std::time::Instant;
use vstd::prelude::*;

use crate::clock::nanos_since;
use crate::double::laws::{is_rate, law_a_rate_is_the_count_by_the_time};
use crate::double::{lemma_no_more, per_second, whole_per_second};

verus! {

/// Nanoseconds in a second, the least that a measuring window lasts.
pub const WINDOW: u128 = 1_000_000_000;

/// Counts reports and gives the achieved rate once a second.
pub struct Meter {
    enabled: bool,
    count: u32,
    /// The moment that `window` counts from.
    origin: Instant,
    window: u128,
    peak: Option<u32>,
}

/// The higher of the best rate so far and a new one.
pub open spec fn higher(peak: Option<u32>, hz: u32) -> Option<u32> {
    match peak {
        Some(p) if p > hz => Some(p),
        _ => Some(hz),
    }
}

/// The count once one more report came, as far as it goes.
pub open spec fn one_more(count: u32) -> u32 {
    if count < u32::MAX {
        (count + 1) as u32
    } else {
        count
    }
}

impl Meter {
    /// Whether anything is counted.
    pub closed spec fn is_enabled(self) -> bool {
        self.enabled
    }

    /// Reports in this window.
    pub closed spec fn counted(self) -> u32 {
        self.count
    }

    /// When this window began, in nanoseconds.
    pub closed spec fn began(self) -> u128 {
        self.window
    }

    /// The best rate so far.
    pub closed spec fn best(self) -> Option<u32> {
        self.peak
    }

    pub fn new(enabled: bool) -> (r: Meter)
        ensures
            r.is_enabled() == enabled,
            r.counted() == 0,
            r.began() == 0,
            r.best() is None,
    {
        Meter { enabled, count: 0, origin: Instant::now(), window: 0, peak: None }
    }

    /// The best rate so far.
    pub fn peak(&self) -> (r: Option<u32>)
        ensures
            r == self.best(),
    {
        self.peak
    }

    /// Call once per report received. Gives the rate when a window is over.
    pub fn tick(&mut self) -> (r: Option<u32>)
        ensures
            final(self).is_enabled() == old(self).is_enabled(),
            r is None ==> final(self).began() == old(self).began(),
            exists|now: u128, later: u128| #[trigger]
                ticks(*old(self), *final(self), now, later, r),
    {
        let now: u128 = nanos_since(&self.origin);
        let later: u128 = nanos_since(&self.origin);
        let r = self.tick_at(now, later);
        assert(ticks(*old(self), *self, now, later, r));
        r
    }

    /// Counts a report that came at `now`, in nanoseconds. When a window is over,
    /// gives the rate and starts a new window at `later`.
    pub fn tick_at(&mut self, now: u128, later: u128) -> (r: Option<u32>)
        ensures
            final(self).is_enabled() == old(self).is_enabled(),
            counts(*old(self), *final(self), now, r),
            final(self).began() == if r is Some {
                later
            } else {
                old(self).began()
            },
    {
        let r = self.count_at(now);
        if r.is_some() {
            self.restart_at(later);
        }
        r
    }

    /// Counts a report that came at `now`, in nanoseconds. Gives the rate when
    /// a window is over.
    pub fn count_at(&mut self, now: u128) -> (r: Option<u32>)
        ensures
            final(self).is_enabled() == old(self).is_enabled(),
            final(self).began() == old(self).began(),
            counts(*old(self), *final(self), now, r),
    {
        if !self.enabled {
            return None;
        }
        self.count = self.count.saturating_add(1);
        let elapsed: u128 = if now < self.window {
            0
        } else {
            now - self.window
        };
        if elapsed < WINDOW {
            return None;
        }
        let hz: u32 = whole_per_second(self.count, elapsed);
        self.peak = match self.peak {
            Some(p) => if p > hz {
                Some(p)
            } else {
                Some(hz)
            },
            None => Some(hz),
        };
        self.count = 0;
        Some(hz)
    }

    /// Starts a new window at `now`, in nanoseconds.
    pub fn restart_at(&mut self, now: u128)
        ensures
            final(self).is_enabled() == old(self).is_enabled(),
            final(self).counted() == old(self).counted(),
            final(self).best() == old(self).best(),
            final(self).began() == now,
    {
        self.window = now;
    }
}

/// What a report at `now` changes: nothing where nothing is counted. Otherwise
/// it is counted, and if the window has lasted a second the rate comes out, the
/// best one is kept, and the count starts anew.
pub open spec fn counts(before: Meter, after: Meter, now: u128, hz: Option<u32>) -> bool {
    if !before.is_enabled() {
        &&& hz is None
        &&& after.counted() == before.counted()
        &&& after.best() == before.best()
    } else if now - before.began() < WINDOW {
        &&& hz is None
        &&& after.counted() == one_more(before.counted())
        &&& after.best() == before.best()
    } else {
        &&& hz == Some(per_second(one_more(before.counted()) as int, now - before.began()) as u32)
        &&& after.counted() == 0
        &&& after.best() == higher(before.best(), hz->0)
    }
}

/// What a report at `now` changes, the window included: a rate that comes out
/// starts a new one at `later`.
pub open spec fn ticks(
    before: Meter,
    after: Meter,
    now: u128,
    later: u128,
    hz: Option<u32>,
) -> bool {
    &&& counts(before, after, now, hz)
    &&& after.began() == if hz is Some {
        later
    } else {
        before.began()
    }
}

/// The best rate is the best: it never drops, and no rate that came out lies
/// above it.
pub proof fn law_the_peak_is_the_best(before: Meter, after: Meter, now: u128, hz: Option<u32>)
    requires
        counts(before, after, now, hz),
    ensures
        hz matches Some(hz) ==> after.best() matches Some(best) && best >= hz,
        before.best() matches Some(was) ==> after.best() matches Some(best) && best >= was,
        hz is None ==> after.best() == before.best(),
{
}

/// A rate comes out once a second and no more often: as soon as a report comes a
/// second into the window, and not again before a second has passed since then.
pub proof fn law_rates_come_once_a_second(
    before: Meter,
    after: Meter,
    now: u128,
    later: u128,
    hz: Option<u32>,
    next: Meter,
    again_at: u128,
    again: Option<u32>,
)
    requires
        before.is_enabled(),
        after.is_enabled(),
        ticks(before, after, now, later, hz),
        counts(after, next, again_at, again),
    ensures
        hz is Some <==> now - before.began() >= WINDOW,
        hz is Some ==> (again is Some <==> again_at - later >= WINDOW),
{
}

/// Each report is counted. Until a second has passed that is all; then the rate comes out,
/// which is the reports of the window, this one included, by the time that they took, and
/// counting starts anew. Where nothing is counted, nothing changes.
pub proof fn law_a_rate_is_the_reports_by_their_time(
    before: Meter,
    after: Meter,
    now: u128,
    hz: Option<u32>,
)
    requires
        counts(before, after, now, hz),
        before.counted() < u32::MAX,
    ensures
        before.is_enabled() && now - before.began() < 1_000_000_000 ==> {
            &&& hz is None
            &&& after.counted() == before.counted() + 1
        },
        before.is_enabled() && now - before.began() >= 1_000_000_000 ==> {
            &&& hz is Some
            &&& after.counted() == 0
            &&& now - before.began() < 1_000_000_000 * 0x4_0000_0000 ==> is_rate(
                hz->0 as int,
                before.counted() + 1,
                now - before.began(),
            )
        },
        !before.is_enabled() ==> hz is None && after.counted() == before.counted(),
{
    if before.is_enabled() && now - before.began() >= 1_000_000_000 {
        law_a_rate_is_the_count_by_the_time(before.counted() + 1, now - before.began());
        lemma_no_more(before.counted() + 1, now - before.began());
    }
}

/// The best rate is the first one, and then the higher of it and each that comes out.
pub proof fn law_the_peak_is_one_of_the_rates(
    before: Meter,
    after: Meter,
    now: u128,
    hz: Option<u32>,
)
    requires
        counts(before, after, now, hz),
        hz is Some,
    ensures
        before.best() is None ==> after.best() == hz,
        before.best() is Some ==> after.best() == hz || after.best() == before.best(),
{
}

} // verus!
