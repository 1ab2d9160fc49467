use std::time::Duration;

use gc_controller::double::whole_per_second;
use gc_controller::driver::{
    after_run, on_lull, route, After, Lull, Options, Output, Route, Session, Transport, Verdict,
};
use gc_controller::latency::{Link, Report};
use gc_controller::meter::Meter;
use gc_controller::output::dump::{dump, held, state_line};
use gc_controller::protocol::calibration::Calibration;
use gc_controller::protocol::state::{bit, GcState, RawState};
use gc_controller::reading::Reading;
use gc_controller::transport::usb::Poll;

fn reading(v: f32) -> Reading {
    Reading::from_bits(v.to_bits()).unwrap()
}

fn options() -> Options {
    Options { dump: false, raw: false, stats: false, histogram: false }
}

fn pressed() -> RawState {
    RawState {
        buttons: (1 << bit::A) | (1 << bit::HOME),
        left_stick: (4095, 2048),
        right_stick: (2048, 0),
        trigger_l: 232,
        trigger_r: 58,
    }
}

#[test]
fn the_cable_is_preferred_where_that_is_left_open() {
    assert_eq!(route(Transport::Auto, true), Route::Usb);
    assert_eq!(route(Transport::Auto, false), Route::BleInstead);
    assert_eq!(route(Transport::Usb, false), Route::Usb);
    assert_eq!(route(Transport::Ble, true), Route::Ble);
}

#[test]
fn a_signal_is_never_a_failure() {
    assert_eq!(after_run(true, true, true), After::Exit);
    assert_eq!(after_run(false, false, true), After::Exit);
    assert_eq!(after_run(false, false, false), After::Exit);
    assert_eq!(after_run(false, true, true), After::Retry);
    assert_eq!(after_run(false, true, false), After::Fail);
}

#[test]
fn silence_is_told_from_loss() {
    assert_eq!(on_lull(Lull::Failed, true), Verdict::Lost);
    assert_eq!(on_lull(Lull::Failed, false), Verdict::Stop);
    assert_eq!(on_lull(Lull::Ended, true), Verdict::Lost);
    assert_eq!(on_lull(Lull::Quiet(true), true), Verdict::Wait);
    assert_eq!(on_lull(Lull::Quiet(false), true), Verdict::Lost);
}

#[test]
fn a_dump_drives_nothing() {
    assert!(options().drives_dolphin());
    assert!(!Options { dump: true, ..options() }.drives_dolphin());
    assert!(!Options { raw: true, ..options() }.drives_dolphin());
}

#[test]
fn reports_are_pushed_to_dolphin() {
    let cal = Calibration::default();
    let mut session = Session::new(options(), cal.clone(), Link::Wired);
    let r = session.on_poll(Poll::Report(pressed()), &[5; 64]);
    assert!(r.note.is_none() && r.rate.is_none() && !r.hex);
    match r.output {
        Output::Push(s) => assert!(s == cal.apply(&pressed())),
        other => panic!("{other:?}"),
    }
}

#[test]
fn reports_are_shown_in_a_dump() {
    for (show, hex) in [(Options { dump: true, ..options() }, false), (Options { raw: true, ..options() }, true)] {
        let cal = Calibration::default();
        let mut session = Session::new(show, cal.clone(), Link::Wireless);
        let r = session.on_poll(Poll::Report(pressed()), &[5; 64]);
        assert_eq!(r.hex, hex);
        match r.output {
            Output::Line(text) => assert_eq!(text, dump(&pressed(), &cal)),
            other => panic!("{other:?}"),
        }
    }
}

#[test]
fn an_ignored_report_is_noted_once() {
    let raw = Options { raw: true, ..options() };
    let mut session = Session::new(raw, Calibration::default(), Link::Wired);
    let r = session.on_poll(Poll::Unknown(3), &[0x30, 1, 2]);
    assert_eq!(r.note, Some((0x30, 3)));
    assert!(r.hex, "every raw report is shown");
    assert!(matches!(r.output, Output::Nothing));
    let r = session.on_poll(Poll::Unknown(4), &[0x31, 1, 2, 3]);
    assert_eq!(r.note, None);
    assert!(r.hex);

    let mut session = Session::new(options(), Calibration::default(), Link::Wired);
    let r = session.on_poll(Poll::Unknown(0), &[]);
    assert_eq!(r.note, Some((0, 0)));
    assert!(!r.hex);
}

#[test]
fn an_ignored_report_goes_unremarked_over_the_air() {
    let raw = Options { raw: true, ..options() };
    let mut session = Session::new(raw, Calibration::default(), Link::Wireless);
    for _ in 0..2 {
        let r = session.on_poll(Poll::Unknown(10), &[0x11; 10]);
        assert_eq!(r.note, None);
        assert!(r.hex, "every raw report is shown");
        assert!(matches!(r.output, Output::Nothing));
    }
    let mut session = Session::new(options(), Calibration::default(), Link::Wireless);
    assert!(!session.on_poll(Poll::Unknown(10), &[0x11; 10]).hex);
}

#[test]
fn an_idle_poll_is_nothing() {
    let raw = Options { raw: true, ..options() };
    let mut session = Session::new(raw, Calibration::default(), Link::Wired);
    let r = session.on_poll(Poll::Idle, &[]);
    assert!(r.note.is_none() && r.rate.is_none() && !r.hex);
    assert!(matches!(r.output, Output::Nothing));
}

#[test]
fn the_reader_is_announced_when_it_comes_and_goes() {
    let mut session = Session::new(options(), Calibration::default(), Link::Wired);
    assert_eq!(session.announce(false), None);
    assert_eq!(session.announce(true), Some(true));
    assert_eq!(session.announce(true), None);
    assert_eq!(session.announce(false), Some(false));
}

#[test]
fn a_session_closes_with_what_it_measured() {
    let measured = Options { stats: true, histogram: true, ..options() };
    let mut session = Session::new(measured, Calibration::default(), Link::Wired);
    for _ in 0..4 {
        session.on_poll(Poll::Report(pressed()), &[5; 64]);
    }
    let closing = session.finish(Some(3));
    assert_eq!(closing.dropped, Some(3));
    assert_eq!(closing.peak, None);
    match closing.report {
        Report::Measured(m) => assert_eq!(m.total, 3),
        _ => panic!("three gaps are enough"),
    }

    let session = Session::new(options(), Calibration::default(), Link::Wired);
    let closing = session.finish(Some(0));
    assert_eq!(closing.dropped, None);
    assert!(matches!(closing.report, Report::Off));
    assert_eq!(session.finish(None).dropped, None);
}

#[test]
fn held_buttons_are_listed_in_order() {
    let all = GcState {
        a: true,
        b: true,
        x: true,
        y: true,
        z: true,
        start: true,
        l: true,
        r: true,
        d_up: true,
        d_down: true,
        d_left: true,
        d_right: true,
        home: true,
        capture: true,
        c_button: true,
        ..Default::default()
    };
    assert_eq!(held(&all), "A B X Y Z START L R Up Down Left Right HOME CAPTURE C");
    assert_eq!(held(&GcState::default()), "");
    assert_eq!(held(&GcState { y: true, c_button: true, ..Default::default() }), "Y C");
}

#[test]
fn a_state_line_reads_as_formatted() {
    let values = [0.0f32, -0.0, 1.0, -1.0, 0.0625, -0.4375, 0.1235, 0.9995, -0.0004, 0.005, 0.015];
    for (i, &v) in values.iter().enumerate() {
        let w = values[(i + 3) % values.len()];
        let s = GcState {
            a: true,
            z: true,
            main: (reading(v), reading(w)),
            c_stick: (reading(w), reading(v)),
            trigger_l: reading(v.abs()),
            trigger_r: reading(w.abs()),
            ..Default::default()
        };
        let raw = RawState { buttons: 0xDEAD_0000 + i as u32, ..Default::default() };
        let expected = format!(
            "\rbtn {:08x} main({:+.3},{:+.3}) c({:+.3},{:+.3}) L{:.2} R{:.2}  [A Z]\x1b[K",
            raw.buttons,
            v,
            w,
            w,
            v,
            v.abs(),
            w.abs(),
        );
        assert_eq!(state_line(&raw, &s), expected);
    }
    assert_eq!(
        dump(&pressed(), &Calibration::default()),
        "\rbtn 00001008 main(+1.000,+0.000) c(+0.000,-1.000) L1.00 R0.25  [A HOME]\x1b[K"
    );
}

#[test]
fn rates_come_once_a_second() {
    let second = 1_000_000_000u128;
    let mut meter = Meter::new(true);
    for i in 1..250u128 {
        assert_eq!(meter.count_at(i * 4_000_000), None);
    }
    assert_eq!(meter.count_at(second), Some(250));
    assert_eq!(meter.peak(), Some(250));
    meter.restart_at(second);
    assert_eq!(meter.count_at(second + 1), None);
    assert_eq!(meter.count_at(4 * second), Some(1));
    assert_eq!(meter.peak(), Some(250));
    // 3 reports in 2 seconds: 1.5, rounded up.
    meter.restart_at(4 * second);
    assert_eq!(meter.count_at(4 * second), None);
    assert_eq!(meter.count_at(4 * second), None);
    assert_eq!(meter.count_at(6 * second), Some(2));
    // Long ago.
    assert_eq!(meter.count_at(u128::MAX), Some(0));
}

#[test]
fn a_rate_starts_a_new_window() {
    let second = 1_000_000_000u128;
    let mut meter = Meter::new(true);
    assert_eq!(meter.tick_at(second - 1, 7), None);
    assert_eq!(meter.tick_at(second, second + 5), Some(2));
    // The next one is due a second after the new window began.
    assert_eq!(meter.tick_at(2 * second + 4, 0), None);
    assert_eq!(meter.tick_at(2 * second + 5, 2 * second + 6), Some(2));
    assert_eq!(meter.tick_at(2 * second + 7, 0), None);
}

#[test]
fn a_disabled_meter_counts_nothing() {
    let mut meter = Meter::new(false);
    assert_eq!(meter.count_at(5_000_000_000), None);
    assert_eq!(meter.tick(), None);
    assert_eq!(meter.peak(), None);
}

#[test]
fn an_enabled_meter_waits_for_its_window() {
    let mut meter = Meter::new(true);
    assert_eq!(meter.tick(), None);
    assert_eq!(meter.peak(), None);
}

/// The rate in plain double precision.
fn rate_in_floats(count: u32, nanos: u128) -> u32 {
    let elapsed = Duration::new((nanos / 1_000_000_000) as u64, (nanos % 1_000_000_000) as u32);
    (f64::from(count) / elapsed.as_secs_f64()).round() as u32
}

#[test]
fn rates_agree_with_floating_point() {
    let mut spans = vec![
        1_000_000_000u128,
        1_000_000_001,
        1_000_123_456,
        1_120_000_000,
        1_250_000_000,
        2_000_000_000,
        7_777_777_777,
        3_600_000_000_001,
        123_456_789_123_456_789,
        u128::from(u64::MAX) * 1_000_000_000 + 999_999_999,
    ];
    let mut seed: u64 = 1;
    for _ in 0..2_000 {
        seed = seed.wrapping_mul(6_364_136_223_846_793_005).wrapping_add(1_442_695_040_888_963_407);
        spans.push(1_000_000_000 + u128::from(seed >> 32));
    }
    for &nanos in &spans {
        for count in [1u32, 2, 14, 125, 250, 251, 999, 1_000_003, u32::MAX - 1, u32::MAX] {
            let expected = rate_in_floats(count, nanos);
            assert_eq!(whole_per_second(count, nanos), expected, "{count} in {nanos}");
        }
    }
}

/// Where the exact rate lies half way, what the division rounds to decides.
#[test]
fn rates_agree_with_floating_point_on_ties() {
    let (mut up, mut down) = (0, 0);
    for count in 1..1_500u32 {
        for half in (1..3_000u128).step_by(2) {
            let twice = 2 * u128::from(count) * 1_000_000_000;
            if twice % half != 0 || twice / half < 1_000_000_000 {
                continue;
            }
            let nanos = twice / half;
            let rate = whole_per_second(count, nanos);
            assert_eq!(rate, rate_in_floats(count, nanos), "{count} in {nanos}");
            if u128::from(rate) * 2 > half {
                up += 1;
            } else {
                down += 1;
            }
        }
    }
    assert!(up > 0 && down > 0);
    assert_eq!(whole_per_second(14, 1_120_000_000), 12);
}

#[test]
fn a_rate_comes_out_of_the_count_and_the_window() {
    let mut meter = Meter::new(true);
    for _ in 1..14 {
        assert_eq!(meter.count_at(0), None);
    }
    assert_eq!(meter.count_at(1_120_000_000), Some(12));
    assert_eq!(meter.peak(), Some(12));
}
