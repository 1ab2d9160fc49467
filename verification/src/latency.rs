//! Measuring what the link actually delivers.
//!
//! Over BLE a report can only reach the host on a connection event, so the gap
//! between consecutive reports *is* the connection interval, and a histogram of
//! those gaps identifies it without any privileged API. That matters because the
//! documented ways to read the interval back are all closed to an unentitled
//! process, so this is the measurement of record.
//!
//! The bins are placed on the intervals BLE actually uses (`bluetoothd` bins its
//! own telemetry the same way: 7.5 ms, 11.25 ms, 15 ms), with generous edges so
//! scheduling jitter does not smear a link across two rows.
//!
//! It works over USB too, where it measures poll spacing instead, which is the
//! comparison worth having, since wired is the target being chased.
use std::time::Instant;
use vstd::prelude::*;
use vstd::relations::*;
use vstd::seq_lib::*;

use crate::clock::nanos_since;

pub mod laws;

verus! {

/// Which link is being measured. The interesting thresholds are genuinely
/// different (4 ms is the good case on a cable and unreachable over BLE), so
/// the two get their own bins rather than one set with misleading labels.
#[derive(Copy, Clone, PartialEq, Eq, Debug, Structural)]
pub enum Link {
    Wired,
    Wireless,
}

/// The upper edges of a link's bins, in microseconds. The last bin has none.
pub open spec fn edges(link: Link) -> Seq<u32> {
    match link {
        Link::Wired => seq![2_500u32, 7_500, 12_000, 25_000],
        Link::Wireless => seq![5_000u32, 9_400, 13_100, 22_500, 37_500],
    }
}

/// What a cluster in a bin means.
pub open spec fn meaning(link: Link, bin: int) -> Seq<char> {
    match link {
        Link::Wired => if bin == 0 {
            "under 2.5 ms faster than 400 Hz"@
        } else if bin == 1 {
            "~4 ms        250 Hz — the vendor bulk path"@
        } else if bin == 2 {
            "~8 ms        125 Hz — what the HID interface advertises"@
        } else if bin == 3 {
            "~16 ms       60 Hz"@
        } else {
            "over 25 ms   stalls and dropped reports"@
        },
        Link::Wireless => if bin == 0 {
            "under 5 ms   several reports per connection event"@
        } else if bin == 1 {
            "~7.5 ms      7.5 ms interval — the BLE floor"@
        } else if bin == 2 {
            "~11.25 ms    11.25 ms interval"@
        } else if bin == 3 {
            "~15 ms       15 ms interval — macOS default for a GATT accessory"@
        } else if bin == 4 {
            "~30 ms       30 ms interval"@
        } else {
            "over 37.5 ms stalls and dropped events"@
        },
    }
}

/// How many bins a link has.
pub open spec fn bin_count(link: Link) -> int {
    edges(link).len() as int + 1
}

/// The first of the bins from `from` on whose upper edge lies above a gap.
pub open spec fn bin_from(link: Link, gap: u32, from: int) -> int
    decreases edges(link).len() - from,
{
    if from >= edges(link).len() || gap < edges(link)[from] {
        from
    } else {
        bin_from(link, gap, from + 1)
    }
}

/// The bin that a gap falls in: the first whose upper edge lies above it.
pub open spec fn bin_of(link: Link, gap: u32) -> int {
    bin_from(link, gap, 0)
}

impl Link {
    /// The upper edges of this link's bins, in microseconds. The last bin has
    /// none.
    pub fn bins(self) -> (r: Vec<u32>)
        ensures
            r@ == edges(self),
    {
        match self {
            Link::Wired => vec![2_500, 7_500, 12_000, 25_000],
            Link::Wireless => vec![5_000, 9_400, 13_100, 22_500, 37_500],
        }
    }

    /// What a cluster in a bin means.
    pub fn label(self, bin: usize) -> (r: &'static str)
        ensures
            r@ == meaning(self, bin as int),
    {
        match self {
            Link::Wired => match bin {
                0 => "under 2.5 ms faster than 400 Hz",
                1 => "~4 ms        250 Hz — the vendor bulk path",
                2 => "~8 ms        125 Hz — what the HID interface advertises",
                3 => "~16 ms       60 Hz",
                _ => "over 25 ms   stalls and dropped reports",
            },
            Link::Wireless => match bin {
                0 => "under 5 ms   several reports per connection event",
                1 => "~7.5 ms      7.5 ms interval — the BLE floor",
                2 => "~11.25 ms    11.25 ms interval",
                3 => "~15 ms       15 ms interval — macOS default for a GATT accessory",
                4 => "~30 ms       30 ms interval",
                _ => "over 37.5 ms stalls and dropped events",
            },
        }
    }
}

/// Samples past this point are redundant: the distribution has long converged.
pub const MAX_SAMPLES: usize = 200_000;

/// The gap between two moments in nanoseconds, in whole microseconds, as far as
/// 32 bits go. A clock that went back gives no gap.
pub open spec fn gap_between(before: u128, now: u128) -> u32 {
    let micros = (now - before) / 1000;
    if now < before {
        0
    } else if micros > u32::MAX {
        u32::MAX
    } else {
        micros as u32
    }
}

/// Records the gap between consecutive reports.
pub struct Histogram {
    enabled: bool,
    link: Link,
    /// The moment that `last` counts from.
    origin: Instant,
    last: Option<u128>,
    /// Gaps in microseconds. Bounded so a long session cannot grow without end;
    /// once full we stop recording rather than bias the tail by evicting.
    gaps: Vec<u32>,
}

impl Histogram {
    #[verifier::type_invariant]
    pub closed spec fn wf(self) -> bool {
        self.gaps@.len() <= MAX_SAMPLES
    }

    /// Whether anything is recorded.
    pub closed spec fn is_enabled(self) -> bool {
        self.enabled
    }

    /// The link that is measured.
    pub closed spec fn measured_link(self) -> Link {
        self.link
    }

    /// When the last report came, in nanoseconds.
    pub closed spec fn last_report(self) -> Option<u128> {
        self.last
    }

    /// The gaps recorded, in microseconds.
    pub closed spec fn recorded(self) -> Seq<u32> {
        self.gaps@
    }

    pub fn new(enabled: bool, link: Link) -> (r: Histogram)
        ensures
            r.is_enabled() == enabled,
            r.measured_link() == link,
            r.last_report() is None,
            r.recorded() == Seq::<u32>::empty(),
    {
        Histogram { enabled, link, origin: Instant::now(), last: None, gaps: Vec::new() }
    }

    /// The link that is measured.
    pub fn link(&self) -> (r: Link)
        ensures
            r == self.measured_link(),
    {
        self.link
    }

    /// The gaps recorded so far, in microseconds.
    pub fn gaps(&self) -> (r: &[u32])
        ensures
            r@ == self.recorded(),
            r@.len() <= MAX_SAMPLES,
    {
        proof {
            use_type_invariant(self);
        }
        self.gaps.as_slice()
    }

    /// Call once per report received.
    pub fn tick(&mut self)
        ensures
            final(self).is_enabled() == old(self).is_enabled(),
            final(self).measured_link() == old(self).measured_link(),
            exists|now: u128| #[trigger] ticked(*old(self), *final(self), now),
    {
        let now: u128 = nanos_since(&self.origin);
        self.tick_at(now);
        assert(ticked(*old(self), *self, now));
    }

    /// Records a report that came at `now`, in nanoseconds.
    pub fn tick_at(&mut self, now: u128)
        ensures
            final(self).is_enabled() == old(self).is_enabled(),
            final(self).measured_link() == old(self).measured_link(),
            ticked(*old(self), *final(self), now),
    {
        if !self.enabled {
            return;
        }
        proof {
            use_type_invariant(&*self);
        }
        if let Some(before) = self.last {
            if self.gaps.len() < MAX_SAMPLES {
                let micros: u128 = if now < before {
                    0
                } else {
                    (now - before) / 1000
                };
                let gap: u32 = if micros > 0xffff_ffff {
                    0xffff_ffff
                } else {
                    micros as u32
                };
                let mut gaps: Vec<u32> = Vec::new();
                std::mem::swap(&mut gaps, &mut self.gaps);
                gaps.push(gap);
                self.gaps = gaps;
            }
        }
        self.last = Some(now);
    }
}

/// What a report at `now` changes: nothing where nothing is recorded. Otherwise
/// the clock starts anew, and the gap since the report before is recorded,
/// where there was one and there is room.
pub open spec fn ticked(before: Histogram, after: Histogram, now: u128) -> bool {
    if !before.is_enabled() {
        &&& after.recorded() == before.recorded()
        &&& after.last_report() == before.last_report()
    } else {
        &&& after.last_report() == Some(now)
        &&& after.recorded() == match before.last_report() {
            Some(last) if before.recorded().len() < MAX_SAMPLES => before.recorded().push(
                gap_between(last, now),
            ),
            _ => before.recorded(),
        }
    }
}

/// How many gaps fall in a bin.
pub open spec fn tally(link: Link, gaps: Seq<u32>, bin: int) -> int
    decreases gaps.len(),
{
    if gaps.len() == 0 {
        0
    } else {
        tally(link, gaps.drop_last(), bin) + if bin_of(link, gaps.last()) == bin {
            1int
        } else {
            0
        }
    }
}

/// Gaps in ascending order.
pub open spec fn in_order(gaps: Seq<u32>) -> Seq<u32> {
    gaps.sort_by(|a: u32, b: u32| a <= b)
}

/// The sample at the nearest rank to `percent` of the way through a sorted
/// sequence, and 0 if there is none.
pub open spec fn nearest_rank(sorted: Seq<u32>, percent: int) -> u32 {
    if sorted.len() == 0 {
        0
    } else {
        sorted[((sorted.len() - 1) * percent + 50) / 100]
    }
}

/// A share of the whole, in fortieths rounded to the nearest.
pub open spec fn bar_length(count: int, total: int) -> int {
    (80 * count + total) / (2 * total)
}

/// One line of the distribution.
#[derive(Copy, Clone, PartialEq, Eq, Debug, Structural)]
pub struct Row {
    /// The bin that the line is about.
    pub bin: usize,
    /// How many gaps fell in it.
    pub count: usize,
    /// Their share, in fortieths.
    pub bar: usize,
}

/// The lines for the first `n` bins: one for each that holds a gap.
pub open spec fn rows_of(link: Link, gaps: Seq<u32>, n: int) -> Seq<Row>
    decreases n,
{
    if n <= 0 {
        Seq::empty()
    } else {
        let count = tally(link, gaps, n - 1);
        let above = rows_of(link, gaps, n - 1);
        if count == 0 {
            above
        } else {
            above.push(
                Row {
                    bin: (n - 1) as usize,
                    count: count as usize,
                    bar: bar_length(count, gaps.len() as int) as usize,
                },
            )
        }
    }
}

/// The fullest of the first `n` bins, and the last of them on a tie.
pub open spec fn fullest(link: Link, gaps: Seq<u32>, n: int) -> int
    decreases n,
{
    if n <= 1 {
        0
    } else {
        let above = fullest(link, gaps, n - 1);
        if tally(link, gaps, n - 1) >= tally(link, gaps, above) {
            n - 1
        } else {
            above
        }
    }
}

/// The distribution of the gaps, and the interval it implies.
pub struct Summary {
    /// How many gaps there are.
    pub total: usize,
    /// Percentiles, in microseconds.
    pub median: u32,
    pub p95: u32,
    pub p99: u32,
    pub max: u32,
    /// The bins that hold a gap, in order.
    pub rows: Vec<Row>,
    /// The modal bin is the link's operating point; the median confirms it.
    pub operating_point: usize,
}

/// What a summary says of some gaps.
pub open spec fn summarises(m: Summary, link: Link, gaps: Seq<u32>) -> bool {
    &&& m.total == gaps.len()
    &&& m.median == nearest_rank(in_order(gaps), 50)
    &&& m.p95 == nearest_rank(in_order(gaps), 95)
    &&& m.p99 == nearest_rank(in_order(gaps), 99)
    &&& m.max == nearest_rank(in_order(gaps), 100)
    &&& m.rows@ == rows_of(link, gaps, bin_count(link))
    &&& m.operating_point == fullest(link, gaps, bin_count(link))
}

/// What there is to say on exit.
pub enum Report {
    /// Nothing was asked for.
    Off,
    /// Not enough reports to measure the interval.
    TooFew,
    Measured(Summary),
}

/// What there is to say of what was recorded: nothing where it was not asked for, and
/// nothing that two gaps at least do not bear out.
pub open spec fn reports(h: Histogram, r: Report) -> bool {
    match r {
        Report::Off => !h.is_enabled(),
        Report::TooFew => h.is_enabled() && h.recorded().len() < 2,
        Report::Measured(m) => {
            &&& h.is_enabled()
            &&& h.recorded().len() >= 2
            &&& summarises(m, h.measured_link(), h.recorded())
        },
    }
}

/// `<[u32]>::sort_unstable`: the elements are the same, in ascending order.
#[verifier::external_body]
fn sort_unstable(v: &mut Vec<u32>)
    ensures
        final(v)@.to_multiset() == old(v)@.to_multiset(),
        forall|i: int, j: int| 0 <= i <= j < final(v)@.len() ==> final(v)@[i] <= final(v)@[j],
{
    v.sort_unstable()
}

impl Histogram {
    /// Which bin a gap of so many microseconds falls in, for `link`'s scale.
    pub fn bin_for(link: Link, gap: u32) -> (r: usize)
        ensures
            r == bin_of(link, gap),
            r < bin_count(link),
    {
        let bins = link.bins();
        let mut i: usize = 0;
        while i < bins.len() && gap >= bins[i]
            invariant
                bins@ == edges(link),
                i <= bins@.len(),
                bin_of(link, gap) == bin_from(link, gap, i as int),
            decreases bins@.len() - i,
        {
            i = i + 1;
        }
        i
    }

    /// The sample at the nearest rank to `percent` of the way through sorted
    /// samples, and 0 if there is none.
    pub fn percentile(sorted: &[u32], percent: u32) -> (r: u32)
        requires
            percent <= 100,
        ensures
            r == nearest_rank(sorted@, percent as int),
    {
        let len = sorted.len();
        if len == 0 {
            return 0;
        }
        assert(((len - 1) * percent + 50) / 100 <= len - 1 && (len - 1) * percent <= (len - 1)
            * 100) by (nonlinear_arith)
            requires
                len >= 1,
                0 <= percent <= 100,
        ;
        let index: u128 = ((len - 1) as u128 * percent as u128 + 50) / 100;
        sorted[index as usize]
    }

    /// How many gaps fall in a bin.
    fn count(link: Link, gaps: &[u32], bin: usize) -> (r: usize)
        ensures
            r == tally(link, gaps@, bin as int),
            r <= gaps@.len(),
    {
        let mut n: usize = 0;
        for i in 0..gaps.len()
            invariant
                n == tally(link, gaps@.take(i as int), bin as int),
                n <= i,
        {
            proof {
                assert(gaps@.take(i + 1).drop_last() =~= gaps@.take(i as int));
                assert(gaps@.take(i + 1).last() == gaps@[i as int]);
            }
            if Self::bin_for(link, gaps[i]) == bin {
                n = n + 1;
            }
        }
        assert(gaps@.take(gaps@.len() as int) =~= gaps@);
        n
    }

    /// Works out the distribution and the interval it implies.
    pub fn report(&self) -> (r: Report)
        ensures
            reports(*self, r),
    {
        if !self.enabled {
            return Report::Off;
        }
        if self.gaps.len() < 2 {
            return Report::TooFew;
        }
        proof {
            use_type_invariant(self);
        }
        Report::Measured(summary(self.link, self.gaps.as_slice()))
    }
}

/// Works out the distribution of some gaps.
pub fn summary(link: Link, gaps: &[u32]) -> (r: Summary)
    requires
        0 < gaps@.len() <= MAX_SAMPLES,
    ensures
        summarises(r, link, gaps@),
{
    let total = gaps.len();
    let mut sorted = vstd::slice::slice_to_vec(gaps);
    sort_unstable(&mut sorted);
    proof {
        lemma_sorting(gaps@, sorted@);
    }
    let bins: usize = link.bins().len() + 1;
    let mut rows: Vec<Row> = Vec::new();
    let mut best: usize = 0;
    let mut best_count: usize = Histogram::count(link, gaps, 0);
    for i in 0..bins
        invariant
            bins == bin_count(link),
            total == gaps@.len(),
            0 < total <= MAX_SAMPLES,
            rows@ == rows_of(link, gaps@, i as int),
            best == fullest(link, gaps@, i as int),
            best_count == tally(link, gaps@, best as int),
    {
        let count: usize = Histogram::count(link, gaps, i);
        if count > 0 {
            proof {
                assert((80 * count + total) / (2 * total) <= 41) by (nonlinear_arith)
                    requires
                        count <= total,
                        0 < total,
                ;
            }
            let bar: usize = (80 * count + total) / (2 * total);
            rows.push(Row { bin: i, count, bar });
        }
        if i == 0 || count >= best_count {
            best = i;
            best_count = count;
        }
    }
    Summary {
        total,
        median: Histogram::percentile(sorted.as_slice(), 50),
        p95: Histogram::percentile(sorted.as_slice(), 95),
        p99: Histogram::percentile(sorted.as_slice(), 99),
        max: Histogram::percentile(sorted.as_slice(), 100),
        rows,
        operating_point: best,
    }
}

/// There is one way to put gaps in order.
proof fn lemma_sorting(gaps: Seq<u32>, sorted: Seq<u32>)
    requires
        gaps.to_multiset() == sorted.to_multiset(),
        forall|i: int, j: int| 0 <= i <= j < sorted.len() ==> sorted[i] <= sorted[j],
    ensures
        sorted == in_order(gaps),
{
    let leq = |a: u32, b: u32| a <= b;
    assert(total_ordering(leq));
    gaps.lemma_sort_by_ensures(leq);
    assert(sorted_by(sorted, leq));
    lemma_sorted_unique(sorted, gaps.sort_by(leq), leq);
}

/// Nothing that was recorded is lost, and each report adds one gap at most; the
/// first report adds none, having no report before it.
pub proof fn law_recording_keeps_what_there_is(before: Histogram, after: Histogram, now: u128)
    requires
        ticked(before, after, now),
    ensures
        before.recorded().is_prefix_of(after.recorded()),
        after.recorded().len() <= before.recorded().len() + 1,
        before.last_report() is None ==> after.recorded() == before.recorded(),
{
}

/// Every gap falls in exactly one bin: the one between whose edges it lies.
pub proof fn law_bins_cover_every_gap(link: Link, gap: u32)
    ensures
        0 <= bin_of(link, gap) < bin_count(link),
        bin_of(link, gap) > 0 ==> edges(link)[bin_of(link, gap) - 1] <= gap,
        bin_of(link, gap) < edges(link).len() ==> gap < edges(link)[bin_of(link, gap)],
{
    lemma_bin_from(link, gap, 0);
}

proof fn lemma_bin_from(link: Link, gap: u32, from: int)
    requires
        0 <= from <= edges(link).len(),
    ensures
        from <= bin_from(link, gap, from) <= edges(link).len(),
        bin_from(link, gap, from) > from ==> edges(link)[bin_from(link, gap, from) - 1] <= gap,
        bin_from(link, gap, from) < edges(link).len() ==> gap < edges(link)[bin_from(
            link,
            gap,
            from,
        )],
    decreases edges(link).len() - from,
{
    if from < edges(link).len() && gap >= edges(link)[from] {
        lemma_bin_from(link, gap, from + 1);
    }
}

/// How many gaps the first `n` bins hold together.
pub open spec fn tallied(link: Link, gaps: Seq<u32>, n: int) -> int
    decreases n,
{
    if n <= 0 {
        0
    } else {
        tallied(link, gaps, n - 1) + tally(link, gaps, n - 1)
    }
}

/// Every gap is counted, and counted once.
pub proof fn law_every_gap_is_counted_once(link: Link, gaps: Seq<u32>)
    ensures
        tallied(link, gaps, bin_count(link)) == gaps.len(),
    decreases gaps.len(),
{
    if gaps.len() == 0 {
        lemma_tallied_empty(link, gaps, bin_count(link));
    } else {
        law_every_gap_is_counted_once(link, gaps.drop_last());
        law_bins_cover_every_gap(link, gaps.last());
        lemma_tallied_step(link, gaps, bin_count(link));
    }
}

proof fn lemma_tallied_empty(link: Link, gaps: Seq<u32>, n: int)
    requires
        gaps.len() == 0,
    ensures
        tallied(link, gaps, n) == 0,
    decreases n,
{
    if n > 0 {
        lemma_tallied_empty(link, gaps, n - 1);
    }
}

proof fn lemma_tallied_step(link: Link, gaps: Seq<u32>, n: int)
    requires
        gaps.len() > 0,
        bin_of(link, gaps.last()) >= 0,
    ensures
        tallied(link, gaps, n) == tallied(link, gaps.drop_last(), n) + if bin_of(
            link,
            gaps.last(),
        ) < n {
            1int
        } else {
            0
        },
    decreases n,
{
    if n > 0 {
        lemma_tallied_step(link, gaps, n - 1);
    }
}

/// No bin holds more gaps than the operating point, and no later one as many.
pub proof fn law_the_operating_point_is_the_fullest(link: Link, gaps: Seq<u32>, n: int, bin: int)
    requires
        1 <= n,
        0 <= bin < n,
    ensures
        0 <= fullest(link, gaps, n) < n,
        tally(link, gaps, bin) <= tally(link, gaps, fullest(link, gaps, n)),
        bin > fullest(link, gaps, n) ==> tally(link, gaps, bin) < tally(
            link,
            gaps,
            fullest(link, gaps, n),
        ),
    decreases n,
{
    if n > 1 {
        law_the_operating_point_is_the_fullest(
            link,
            gaps,
            n - 1,
            if bin < n - 1 {
                bin
            } else {
                0
            },
        );
    }
}

/// A higher percentile is never smaller, and the highest is the largest gap.
pub proof fn law_percentiles_ascend(gaps: Seq<u32>, low: int, high: int, i: int)
    requires
        0 <= low <= high <= 100,
        0 <= i < gaps.len(),
    ensures
        nearest_rank(in_order(gaps), low) <= nearest_rank(in_order(gaps), high),
        gaps[i] <= nearest_rank(in_order(gaps), 100),
        gaps.contains(nearest_rank(in_order(gaps), high)),
{
    broadcast use group_to_multiset_ensures;

    let leq = |a: u32, b: u32| a <= b;
    assert(total_ordering(leq));
    gaps.lemma_sort_by_ensures(leq);
    let sorted = in_order(gaps);
    assert(sorted.len() == gaps.len()) by {
        assert(sorted.len() == sorted.to_multiset().len());
        assert(gaps.len() == gaps.to_multiset().len());
    }
    let n = sorted.len() - 1;
    assert(0 <= (n * low + 50) / 100 <= (n * high + 50) / 100 <= n) by (nonlinear_arith)
        requires
            0 <= n,
            0 <= low <= high <= 100,
    ;
    assert((n * 100 + 50) / 100 == n);
    assert(leq(sorted[(n * low + 50) / 100], sorted[(n * high + 50) / 100]));
    assert(gaps.contains(gaps[i]));
    assert(sorted.to_multiset().count(gaps[i]) > 0);
    assert(sorted.contains(gaps[i]));
    let k = choose|k: int| 0 <= k < sorted.len() && sorted[k] == gaps[i];
    assert(leq(sorted[k], sorted[n]));
    let picked = sorted[(n * high + 50) / 100];
    assert(sorted.contains(picked));
}

} // verus!
