use gc_controller::latency::{summary, Histogram, Link, Report, Row, MAX_SAMPLES};

/// Which bin a gap of so many milliseconds falls in.
fn bin_for(link: Link, ms: f64) -> usize {
    Histogram::bin_for(link, (ms * 1000.0).round() as u32)
}

/// How many bins a link has: one below each edge, and one above them all.
fn bin_count(link: Link) -> usize {
    link.bins().len() + 1
}

/// A percentile in milliseconds.
fn percentile(sorted: &[u32], p: f64) -> f64 {
    f64::from(Histogram::percentile(sorted, (p * 100.0).round() as u32)) / 1000.0
}

/// The whole point of this module is telling 7.5 from 11.25 from 15 ms, so
/// each nominal interval must land in its own bin with room for jitter.
#[test]
fn each_ble_interval_lands_in_its_own_bin() {
    let bins: Vec<usize> = [7.5, 11.25, 15.0, 30.0]
        .iter()
        .map(|&ms| bin_for(Link::Wireless, ms))
        .collect();
    assert_eq!(bins, vec![1, 2, 3, 4]);
    // Distinct, or the histogram cannot distinguish the cases it exists for.
    let mut sorted = bins.clone();
    sorted.dedup();
    assert_eq!(sorted.len(), bins.len());
}

#[test]
fn jitter_does_not_smear_an_interval_across_bins() {
    // A 15 ms link wobbling by a millisecond either way stays put.
    for ms in [13.6, 14.5, 15.0, 15.5, 16.4] {
        assert_eq!(bin_for(Link::Wireless, ms), 3, "{ms} ms escaped the 15 ms bin");
    }
    // Same for the fast case we are chasing.
    for ms in [6.6, 7.5, 8.4] {
        assert_eq!(bin_for(Link::Wireless, ms), 1, "{ms} ms escaped the 7.5 ms bin");
    }
}

/// The measured wired link sits at 4.00 ms median with a 7.28 ms tail, so
/// the 250 Hz bin has to hold that whole spread without leaking into 125 Hz.
#[test]
fn the_measured_wired_link_lands_in_the_250_hz_bin() {
    for ms in [2.6, 4.0, 4.22, 4.68, 5.9] {
        assert_eq!(bin_for(Link::Wired, ms), 1, "{ms} ms escaped the 250 Hz bin");
    }
    // And the rate below it stays distinguishable.
    assert_eq!(bin_for(Link::Wired, 8.0), 2, "125 Hz must be its own bin");
}

#[test]
fn the_250_hz_bin_holds_the_tail_of_the_measured_wired_link() {
    assert_eq!(bin_for(Link::Wired, 7.28), 1);
    assert_eq!(bin_for(Link::Wired, 6.43), 1);
    assert_eq!(bin_for(Link::Wired, 7.999), 2);
}

#[test]
fn batched_reports_and_stalls_are_called_out_separately() {
    assert_eq!(bin_for(Link::Wireless, 0.4), 0, "sub-event batching");
    assert_eq!(
        bin_for(Link::Wireless, 120.0),
        bin_count(Link::Wireless) - 1,
        "a stall"
    );
    assert_eq!(
        bin_for(Link::Wired, 120.0),
        bin_count(Link::Wired) - 1,
        "a wired stall"
    );
}

/// Nearest-rank, and reported in milliseconds from microsecond samples.
#[test]
fn percentiles_use_nearest_rank_and_convert_to_milliseconds() {
    let sorted: Vec<u32> = (1..=100).map(|n| n * 1000).collect();
    // round(99 * 0.5) = 50, so the median is the 51st sample.
    assert_eq!(percentile(&sorted, 0.5), 51.0);
    assert_eq!(percentile(&sorted, 0.95), 95.0);
    assert_eq!(percentile(&sorted, 1.0), 100.0);
    assert_eq!(percentile(&[], 0.5), 0.0);
}

#[test]
fn a_disabled_histogram_records_nothing() {
    let mut h = Histogram::new(false, Link::Wired);
    h.tick();
    h.tick();
    assert!(h.gaps().is_empty());
}

#[test]
fn the_first_report_starts_the_clock_rather_than_recording_a_gap() {
    let mut h = Histogram::new(true, Link::Wired);
    h.tick();
    assert!(h.gaps().is_empty(), "there is no gap before the first report");
    h.tick();
    assert_eq!(h.gaps().len(), 1);
}

#[test]
fn gaps_are_whole_microseconds() {
    let mut h = Histogram::new(true, Link::Wired);
    h.tick_at(5_000);
    h.tick_at(4_005_999);
    assert_eq!(h.gaps(), &[4_000]);
    h.tick_at(4_005_999 + 999);
    assert_eq!(h.gaps(), &[4_000, 0]);
    // A gap that does not fit is as long as can be told.
    h.tick_at(u128::MAX);
    assert_eq!(h.gaps(), &[4_000, 0, u32::MAX]);
}

#[test]
fn a_full_histogram_keeps_what_it_has() {
    let mut h = Histogram::new(true, Link::Wired);
    for i in 0..MAX_SAMPLES as u128 + 5 {
        h.tick_at(i * 4_000_000);
    }
    assert_eq!(h.gaps().len(), MAX_SAMPLES);
    assert!(h.gaps().iter().all(|&g| g == 4_000));
}

#[test]
fn bin_edges_belong_to_the_bin_above() {
    for link in [Link::Wired, Link::Wireless] {
        let edges = link.bins();
        for (i, &edge) in edges.iter().enumerate() {
            assert_eq!(Histogram::bin_for(link, edge - 1), i);
            assert_eq!(Histogram::bin_for(link, edge), i + 1);
        }
        assert_eq!(Histogram::bin_for(link, 0), 0);
        assert_eq!(Histogram::bin_for(link, u32::MAX), bin_count(link) - 1);
        assert!(edges.windows(2).all(|w| w[0] < w[1]));
    }
}

#[test]
fn percentiles_agree_with_floating_point() {
    let lengths = (1..2_000).chain([9_999, 65_536, 123_457, 199_999, MAX_SAMPLES]);
    for len in lengths {
        let sorted: Vec<u32> = (0..len as u32).collect();
        for (percent, p) in [(50, 0.50), (95, 0.95), (99, 0.99), (100, 1.0)] {
            let index = ((len - 1) as f64 * p).round() as usize;
            assert_eq!(Histogram::percentile(&sorted, percent), sorted[index], "{len} {percent}");
        }
    }
}

#[test]
fn percentiles_ascend() {
    let sorted = [1, 2, 3, 5, 8, 13, 21];
    let mut last = 0;
    for percent in 0..=100 {
        let value = Histogram::percentile(&sorted, percent);
        assert!(value >= last);
        last = value;
    }
    assert_eq!(last, 21);
}

#[test]
fn a_summary_sorts_counts_and_names_the_fullest_bin() {
    let gaps = [30_000, 4_000, 30_100, 29_900, 61_000, 30_050];
    let m = summary(Link::Wireless, &gaps);
    assert_eq!(m.total, 6);
    assert_eq!((m.median, m.p95, m.p99, m.max), (30_050, 61_000, 61_000, 61_000));
    let at = |us: u32| Histogram::bin_for(Link::Wireless, us);
    let fast = Row { bin: at(4_000), count: 1, bar: 7 };
    let usual = Row { bin: at(30_000), count: 4, bar: 27 };
    let late = Row { bin: at(61_000), count: 1, bar: 7 };
    assert_eq!(m.rows, vec![fast, usual, late]);
    assert_eq!(m.operating_point, at(30_000));
    assert_eq!(m.rows.iter().map(|r| r.count).sum::<usize>(), m.total);
}

#[test]
fn the_last_of_equally_full_bins_is_the_operating_point() {
    let m = summary(Link::Wired, &[4_000, 8_000]);
    assert_eq!(m.operating_point, Histogram::bin_for(Link::Wired, 8_000));
}

#[test]
fn bars_agree_with_floating_point() {
    for total in 1..300usize {
        for count in 1..=total {
            let mut gaps = vec![4_000u32; count];
            gaps.resize(total, 8_000);
            let m = summary(Link::Wired, &gaps);
            let expected = (count as f64 / total as f64 * 40.0).round() as usize;
            assert_eq!(m.rows[0].bar, expected, "{count} of {total}");
        }
    }
}

#[test]
fn a_report_needs_two_gaps() {
    let mut off = Histogram::new(false, Link::Wired);
    off.tick_at(0);
    off.tick_at(4_000_000);
    off.tick_at(8_000_000);
    assert!(matches!(off.report(), Report::Off));

    let mut h = Histogram::new(true, Link::Wired);
    h.tick_at(0);
    h.tick_at(4_000_000);
    assert!(matches!(h.report(), Report::TooFew));
    h.tick_at(12_000_000);
    match h.report() {
        Report::Measured(m) => {
            assert_eq!((m.total, m.median, m.max), (2, 8_000, 8_000));
            assert_eq!(m.rows.len(), 2);
        }
        _ => panic!("two gaps are enough"),
    }
}

#[test]
fn every_bin_has_a_label() {
    assert_eq!(Link::Wireless.label(1), "~7.5 ms      7.5 ms interval — the BLE floor");
    assert_eq!(Link::Wired.label(1), "~4 ms        250 Hz — the vendor bulk path");
    for link in [Link::Wired, Link::Wireless] {
        for bin in 0..bin_count(link) {
            assert!(!link.label(bin).trim().is_empty());
        }
    }
}
