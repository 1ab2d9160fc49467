//! What the histogram records and reports, held to the gaps themselves: by
//! microseconds, and the labels as they are read.
use vstd::prelude::*;
use vstd::relations::*;
use vstd::seq_lib::*;

use crate::latency::{
    bar_length, bin_count, bin_of, gap_between, in_order, law_bins_cover_every_gap,
    law_the_operating_point_is_the_fullest, meaning, nearest_rank, rows_of, summarises, tally,
    ticked, Histogram, Link, Row, Summary,
};

verus! {

/// What is said of a gap of so many microseconds: the interval that it is nearest to
/// among those that the link uses, or that it is out of their reach.
pub open spec fn told(link: Link, gap: int) -> Seq<char> {
    match link {
        Link::Wired => if gap < 2_500 {
            "under 2.5 ms faster than 400 Hz"@
        } else if gap < 7_500 {
            "~4 ms        250 Hz — the vendor bulk path"@
        } else if gap < 12_000 {
            "~8 ms        125 Hz — what the HID interface advertises"@
        } else if gap < 25_000 {
            "~16 ms       60 Hz"@
        } else {
            "over 25 ms   stalls and dropped reports"@
        },
        Link::Wireless => if gap < 5_000 {
            "under 5 ms   several reports per connection event"@
        } else if gap < 9_400 {
            "~7.5 ms      7.5 ms interval — the BLE floor"@
        } else if gap < 13_100 {
            "~11.25 ms    11.25 ms interval"@
        } else if gap < 22_500 {
            "~15 ms       15 ms interval — macOS default for a GATT accessory"@
        } else if gap < 37_500 {
            "~30 ms       30 ms interval"@
        } else {
            "over 37.5 ms stalls and dropped events"@
        },
    }
}

/// A gap is labelled by how long it is.
pub proof fn law_a_gap_is_labelled_by_its_length(link: Link, gap: u32)
    ensures
        meaning(link, bin_of(link, gap)) == told(link, gap as int),
{
    law_bins_cover_every_gap(link, gap);
}

/// Whether a label names a time, with which it begins.
pub open spec fn names(label: Seq<char>, time: Seq<char>) -> bool {
    &&& label.len() > time.len()
    &&& label.subrange(0, time.len() as int) == time
    &&& label[time.len() as int] == ' '
}

/// A link that holds one of its intervals, give or take some jitter, is labelled with
/// that interval.
pub proof fn law_a_steady_link_is_labelled_with_its_interval(gap: u32)
    ensures
        -1_500 <= gap - 4_000 <= 1_500 ==> names(
            meaning(Link::Wired, bin_of(Link::Wired, gap)),
            "~4 ms"@,
        ),
        -500 <= gap - 8_000 <= 500 ==> names(
            meaning(Link::Wired, bin_of(Link::Wired, gap)),
            "~8 ms"@,
        ),
        -4_000 <= gap - 16_000 <= 4_000 ==> names(
            meaning(Link::Wired, bin_of(Link::Wired, gap)),
            "~16 ms"@,
        ),
        -1_800 <= gap - 7_500 <= 1_800 ==> names(
            meaning(Link::Wireless, bin_of(Link::Wireless, gap)),
            "~7.5 ms"@,
        ),
        -1_800 <= gap - 11_250 <= 1_800 ==> names(
            meaning(Link::Wireless, bin_of(Link::Wireless, gap)),
            "~11.25 ms"@,
        ),
        -1_800 <= gap - 15_000 <= 1_800 ==> names(
            meaning(Link::Wireless, bin_of(Link::Wireless, gap)),
            "~15 ms"@,
        ),
        -7_000 <= gap - 30_000 <= 7_000 ==> names(
            meaning(Link::Wireless, bin_of(Link::Wireless, gap)),
            "~30 ms"@,
        ),
{
    law_a_gap_is_labelled_by_its_length(Link::Wired, gap);
    law_a_gap_is_labelled_by_its_length(Link::Wireless, gap);
    lemma_names();
}

proof fn lemma_names()
    ensures
        names("~4 ms        250 Hz — the vendor bulk path"@, "~4 ms"@),
        names("~8 ms        125 Hz — what the HID interface advertises"@, "~8 ms"@),
        names("~16 ms       60 Hz"@, "~16 ms"@),
        names("~7.5 ms      7.5 ms interval — the BLE floor"@, "~7.5 ms"@),
        names("~11.25 ms    11.25 ms interval"@, "~11.25 ms"@),
        names("~15 ms       15 ms interval — macOS default for a GATT accessory"@, "~15 ms"@),
        names("~30 ms       30 ms interval"@, "~30 ms"@),
{
    reveal_strlit("~4 ms");
    reveal_strlit("~4 ms        250 Hz — the vendor bulk path");
    reveal_strlit("~8 ms");
    reveal_strlit("~8 ms        125 Hz — what the HID interface advertises");
    reveal_strlit("~16 ms");
    reveal_strlit("~16 ms       60 Hz");
    reveal_strlit("~7.5 ms");
    reveal_strlit("~7.5 ms      7.5 ms interval — the BLE floor");
    reveal_strlit("~11.25 ms");
    reveal_strlit("~11.25 ms    11.25 ms interval");
    reveal_strlit("~15 ms");
    reveal_strlit("~15 ms       15 ms interval — macOS default for a GATT accessory");
    reveal_strlit("~30 ms");
    reveal_strlit("~30 ms       30 ms interval");
    assert("~4 ms        250 Hz — the vendor bulk path"@.subrange(0, 5) =~= "~4 ms"@);
    assert("~8 ms        125 Hz — what the HID interface advertises"@.subrange(0, 5) =~= "~8 ms"@);
    assert("~16 ms       60 Hz"@.subrange(0, 6) =~= "~16 ms"@);
    assert("~7.5 ms      7.5 ms interval — the BLE floor"@.subrange(0, 7) =~= "~7.5 ms"@);
    assert("~11.25 ms    11.25 ms interval"@.subrange(0, 9) =~= "~11.25 ms"@);
    assert("~15 ms       15 ms interval — macOS default for a GATT accessory"@.subrange(
        0,
        6,
    ) =~= "~15 ms"@);
    assert("~30 ms       30 ms interval"@.subrange(0, 6) =~= "~30 ms"@);
}

/// What is recorded is the time since the report before, in whole microseconds, as far
/// as 32 bits go.
pub proof fn law_a_gap_is_the_time_since_the_report_before(last: u128, now: u128)
    ensures
        now <= last ==> gap_between(last, now) == 0,
        0 <= now - last < 0x1_0000_0000 * 1000 ==> 1000 * gap_between(last, now) <= now - last
            < 1000 * gap_between(last, now) + 1000,
        now - last >= 0x1_0000_0000 * 1000 ==> gap_between(last, now) == 0xffff_ffff,
{
}

/// Once there was a report, every further one adds its own gap at the end, up to two
/// hundred thousand of them. Where nothing is measured, nothing is kept.
pub proof fn law_every_report_adds_its_gap(before: Histogram, after: Histogram, now: u128)
    requires
        ticked(before, after, now),
    ensures
        before.is_enabled() ==> after.last_report() == Some(now),
        before.is_enabled() && before.last_report() is Some && before.recorded().len() < 200_000
            ==> {
            &&& after.recorded().len() == before.recorded().len() + 1
            &&& after.recorded().last() == gap_between(before.last_report()->0, now)
        },
        before.recorded().len() >= 200_000 ==> after.recorded() == before.recorded(),
        !before.is_enabled() ==> {
            &&& after.recorded() == before.recorded()
            &&& after.last_report() == before.last_report()
        },
{
}

/// Where a bin begins, in microseconds.
pub open spec fn begins(link: Link, bin: int) -> int {
    match link {
        Link::Wired => seq![0, 2_500, 7_500, 12_000, 25_000, 0x1_0000_0000][bin],
        Link::Wireless => seq![0, 5_000, 9_400, 13_100, 22_500, 37_500, 0x1_0000_0000][bin],
    }
}

/// How many gaps lie from one length up to another.
pub open spec fn between(gaps: Seq<u32>, low: int, high: int) -> int {
    gaps.filter(|g: u32| low <= g < high).len() as int
}

/// A bin counts the gaps that lie between where it begins and where the next one does.
pub proof fn law_a_bin_counts_the_gaps_between_its_ends(link: Link, gaps: Seq<u32>, bin: int)
    requires
        0 <= bin < bin_count(link),
    ensures
        bin_count(Link::Wired) == 5,
        bin_count(Link::Wireless) == 6,
        tally(link, gaps, bin) == between(gaps, begins(link, bin), begins(link, bin + 1)),
    decreases gaps.len(),
{
    reveal(Seq::filter);
    if gaps.len() > 0 {
        law_a_bin_counts_the_gaps_between_its_ends(link, gaps.drop_last(), bin);
        law_bins_cover_every_gap(link, gaps.last());
        lemma_begins(link, gaps.last(), bin);
    }
}

proof fn lemma_begins(link: Link, gap: u32, bin: int)
    requires
        0 <= bin < bin_count(link),
    ensures
        bin_of(link, gap) == bin <==> begins(link, bin) <= gap < begins(link, bin + 1),
{
    law_bins_cover_every_gap(link, gap);
    let found = bin_of(link, gap);
    match link {
        Link::Wired => {
            assert(found == 0 || found == 1 || found == 2 || found == 3 || found == 4);
        },
        Link::Wireless => {
            assert(found == 0 || found == 1 || found == 2 || found == 3 || found == 4 || found
                == 5);
        },
    }
}

/// Whether a gap stands so many hundredths of the way through some gaps in ascending
/// order, at the nearest place.
pub open spec fn stands_at(sorted: Seq<u32>, gap: u32, percent: int) -> bool {
    exists|i: int|
        0 <= i < sorted.len() && #[trigger] sorted[i] == gap && 100 * i - 50 <= percent * (
        sorted.len() - 1) < 100 * i + 50
}

proof fn lemma_stands_at(sorted: Seq<u32>, percent: int)
    requires
        sorted.len() > 0,
        0 <= percent <= 100,
    ensures
        stands_at(sorted, nearest_rank(sorted, percent), percent),
{
    let n = sorted.len() - 1;
    let i = (n * percent + 50) / 100;
    assert(n * percent == percent * n && 0 <= n * percent <= n * 100) by (nonlinear_arith)
        requires
            0 <= n,
            0 <= percent <= 100,
    ;
    assert(0 <= i <= n);
    assert(sorted[i] == nearest_rank(sorted, percent));
}

/// A summary tells the gaps that stand half way through them all in ascending order,
/// 95 and 99 hundredths of the way, and last.
pub proof fn law_a_summary_tells_gaps_by_their_rank(m: Summary, link: Link, gaps: Seq<u32>)
    requires
        summarises(m, link, gaps),
        gaps.len() > 0,
    ensures
        in_order(gaps).to_multiset() == gaps.to_multiset(),
        forall|i: int, j: int|
            0 <= i <= j < in_order(gaps).len() ==> in_order(gaps)[i] <= in_order(gaps)[j],
        m.total == gaps.len(),
        stands_at(in_order(gaps), m.median, 50),
        stands_at(in_order(gaps), m.p95, 95),
        stands_at(in_order(gaps), m.p99, 99),
        m.max == in_order(gaps).last(),
{
    broadcast use group_to_multiset_ensures;

    let leq = |a: u32, b: u32| a <= b;
    assert(total_ordering(leq));
    gaps.lemma_sort_by_ensures(leq);
    let sorted = in_order(gaps);
    assert(sorted.len() == gaps.len()) by {
        assert(sorted.len() == sorted.to_multiset().len());
        assert(gaps.len() == gaps.to_multiset().len());
    }
    assert forall|i: int, j: int| 0 <= i <= j < sorted.len() implies sorted[i] <= sorted[j] by {
        assert(leq(sorted[i], sorted[j]));
    }
    lemma_stands_at(sorted, 50);
    lemma_stands_at(sorted, 95);
    lemma_stands_at(sorted, 99);
}

/// Whether a row tells of its bin: how many gaps it holds, which is not none, and their
/// share, to the nearest fortieth.
pub open spec fn tells(row: Row, link: Link, gaps: Seq<u32>) -> bool {
    let count = between(gaps, begins(link, row.bin as int), begins(link, row.bin + 1));
    &&& row.count == count
    &&& 0 < count
    &&& -(gaps.len() as int) < 2 * (gaps.len() * row.bar - 40 * count) <= gaps.len()
}

/// The rows tell of the bins that hold a gap, each once and in ascending order.
pub proof fn law_rows_tell_of_the_bins_that_hold_a_gap(m: Summary, link: Link, gaps: Seq<u32>)
    requires
        summarises(m, link, gaps),
        gaps.len() > 0,
    ensures
        forall|i: int| 0 <= i < m.rows@.len() ==> tells(#[trigger] m.rows@[i], link, gaps),
        forall|i: int, j: int|
            0 <= i < j < m.rows@.len() ==> (#[trigger] m.rows@[i]).bin < (
            #[trigger] m.rows@[j]).bin,
        forall|bin: int|
            0 <= bin < bin_count(link) && between(
                gaps,
                begins(link, bin),
                #[trigger] begins(link, bin + 1),
            ) > 0 ==> exists|i: int| 0 <= i < m.rows@.len() && (#[trigger] m.rows@[i]).bin == bin,
{
    lemma_rows(link, gaps, bin_count(link));
    assert forall|bin: int|
        0 <= bin < bin_count(link) && between(
            gaps,
            begins(link, bin),
            #[trigger] begins(link, bin + 1),
        ) > 0 implies exists|i: int|
        0 <= i < m.rows@.len() && (#[trigger] m.rows@[i]).bin == bin by {
        law_a_bin_counts_the_gaps_between_its_ends(link, gaps, bin);
        assert(tally(link, gaps, bin) > 0);
    }
}

proof fn lemma_rows(link: Link, gaps: Seq<u32>, n: int)
    requires
        0 <= n <= bin_count(link),
        0 < gaps.len() <= usize::MAX,
    ensures
        forall|i: int|
            0 <= i < rows_of(link, gaps, n).len() ==> {
                let row = #[trigger] rows_of(link, gaps, n)[i];
                tells(row, link, gaps) && row.bin < n
            },
        forall|i: int, j: int|
            0 <= i < j < rows_of(link, gaps, n).len() ==> (#[trigger] rows_of(link, gaps, n)[i]).bin
                < (#[trigger] rows_of(link, gaps, n)[j]).bin,
        forall|bin: int|
            0 <= bin < n && #[trigger] tally(link, gaps, bin) > 0 ==> exists|i: int|
                0 <= i < rows_of(link, gaps, n).len() && (#[trigger] rows_of(link, gaps, n)[i]).bin
                    == bin,
    decreases n,
{
    if n > 0 {
        lemma_rows(link, gaps, n - 1);
        let (above, rows) = (rows_of(link, gaps, n - 1), rows_of(link, gaps, n));
        let count = tally(link, gaps, n - 1);
        let total = gaps.len() as int;
        law_a_bin_counts_the_gaps_between_its_ends(link, gaps, n - 1);
        lemma_tally(link, gaps, n - 1);
        if count > 0 {
            let bar = bar_length(count, total);
            assert(0 <= bar <= 41 && -total < 2 * (total * bar - 40 * count) <= total)
                by (nonlinear_arith)
                requires
                    bar == (80 * count + total) / (2 * total),
                    0 < count <= total,
            ;
            let row = rows[above.len() as int];
            assert(tells(row, link, gaps));
            assert(rows =~= above.push(row));
        }
        assert forall|bin: int| 0 <= bin < n && #[trigger] tally(link, gaps, bin) > 0 implies exists|
            i: int,
        |
            0 <= i < rows.len() && (#[trigger] rows[i]).bin == bin by {
            if bin < n - 1 {
                let i = choose|i: int| 0 <= i < above.len() && (#[trigger] above[i]).bin == bin;
                assert(rows[i] == above[i]);
            } else {
                assert(rows[above.len() as int].bin == bin);
            }
        }
    }
}

proof fn lemma_tally(link: Link, gaps: Seq<u32>, bin: int)
    ensures
        0 <= tally(link, gaps, bin) <= gaps.len(),
    decreases gaps.len(),
{
    if gaps.len() > 0 {
        lemma_tally(link, gaps.drop_last(), bin);
    }
}

/// The operating point is the bin that holds most of the gaps, and the last of them on
/// a tie.
pub proof fn law_the_operating_point_holds_most_gaps(
    m: Summary,
    link: Link,
    gaps: Seq<u32>,
    bin: int,
)
    requires
        summarises(m, link, gaps),
        0 <= bin < bin_count(link),
    ensures
        ({
            let most = between(
                gaps,
                begins(link, m.operating_point as int),
                begins(link, m.operating_point + 1),
            );
            let here = between(gaps, begins(link, bin), begins(link, bin + 1));
            here < most || here == most && bin <= m.operating_point
        }),
{
    law_the_operating_point_is_the_fullest(link, gaps, bin_count(link), bin);
    law_a_bin_counts_the_gaps_between_its_ends(link, gaps, bin);
    law_a_bin_counts_the_gaps_between_its_ends(link, gaps, m.operating_point as int);
}

} // verus!
