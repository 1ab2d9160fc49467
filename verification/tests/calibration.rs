use gc_controller::protocol::calibration::{
    addr, AxisCal, Calibration, StickCal, FACTORY_STICK_OFFSET, USER_MAGIC,
};
use gc_controller::protocol::state::{bit, RawState};
use gc_controller::reading::Reading;

fn value(r: Reading) -> f32 {
    f32::from_bits(r.to_bits())
}

fn trigger(zero: u8, deadzone: f32, raw: u8) -> f32 {
    let deadzone = Reading::clamped_from_bits(deadzone.to_bits()).unwrap();
    value(Calibration::trigger(zero, deadzone, raw))
}

fn cal() -> AxisCal {
    AxisCal { neutral: 2000, max: 1000, min: 800 }
}

#[test]
fn axis_maps_neutral_to_zero_and_extremes_to_full_scale() {
    let c = cal();
    assert_eq!(value(c.apply(2000)), 0.0);
    assert_eq!(value(c.apply(3000)), 1.0);
    assert_eq!(value(c.apply(1200)), -1.0);
}

#[test]
fn axis_respects_asymmetric_ranges() {
    let c = cal();
    // Half of the positive range, and half of the (different) negative one.
    assert!((value(c.apply(2500)) - 0.5).abs() < 1e-6);
    assert!((value(c.apply(1600)) + 0.5).abs() < 1e-6);
}

#[test]
fn axis_clamps_beyond_the_calibrated_range() {
    let c = cal();
    assert_eq!(value(c.apply(4095)), 1.0);
    assert_eq!(value(c.apply(0)), -1.0);
}

#[test]
fn uncalibrated_axis_falls_back_to_the_symmetric_range() {
    let c = AxisCal::default();
    assert_eq!(value(c.apply(2048)), 0.0);
    assert_eq!(value(c.apply(0)), -1.0);
    assert_eq!(value(c.apply(4095)), 1.0);
}

#[test]
fn trigger_subtracts_its_resting_offset() {
    // A trigger resting at 0x20 must read 0.0 there, not 0x20/255.
    assert_eq!(trigger(0x20, 0.0, 0x20), 0.0);
    assert_eq!(trigger(0x20, 0.0, 0xE8), 1.0);
    assert_eq!(trigger(0x20, 0.0, 0x10), 0.0, "below zero clamps");
    assert_eq!(trigger(0x20, 0.0, 0xFF), 1.0, "above full clamps");
    let mid = trigger(0x20, 0.0, 0x84);
    assert!((mid - 0.5).abs() < 0.01, "midpoint was {mid}");
}

#[test]
fn trigger_deadzone_silences_rest_noise_but_keeps_full_travel() {
    // Two raw counts above the stored zero: real hardware at rest.
    let resting = trigger(0x1F, 0.0, 0x21);
    assert!(resting > 0.0, "precondition: rest reads {resting}, not 0");
    assert_eq!(trigger(0x1F, 0.02, 0x21), 0.0);
    // A full pull must still reach the top of the range.
    assert_eq!(trigger(0x1F, 0.02, 0xE8), 1.0);
}

#[test]
fn trigger_deadzone_rescales_rather_than_shifting() {
    // Half travel stays near half, not half-minus-deadzone.
    let v = trigger(0x00, 0.10, 116);
    assert!((v - 0.444).abs() < 0.01, "got {v}");
}

#[test]
fn stick_cal_unpacks_three_12_bit_pairs() {
    // neutral (0x801, 0x802), max (0x101, 0x102), min (0x201, 0x202)
    let blob = [
        0x01, 0x28, 0x80, //
        0x01, 0x21, 0x10, //
        0x01, 0x22, 0x20,
    ];
    let c = StickCal::parse(&blob).unwrap();
    assert_eq!(c.x, AxisCal { neutral: 0x801, max: 0x101, min: 0x201 });
    assert_eq!(c.y, AxisCal { neutral: 0x802, max: 0x102, min: 0x202 });
}

#[test]
fn user_calibration_overrides_factory_only_with_the_magic() {
    let mut c = Calibration::default();
    let mut factory = vec![0u8; 0x40];
    factory[FACTORY_STICK_OFFSET..FACTORY_STICK_OFFSET + 9]
        .copy_from_slice(&[0x01, 0x28, 0x80, 0x01, 0x21, 0x10, 0x01, 0x22, 0x20]);
    c.absorb(addr::LEFT_STICK, &factory);
    assert_eq!(c.left.x.neutral, 0x801);

    // No magic: ignored.
    let mut blank = vec![0u8; 0x40];
    blank[2..11].copy_from_slice(&[0x05, 0x28, 0x80, 0x01, 0x21, 0x10, 0x01, 0x22, 0x20]);
    c.absorb(addr::USER_LEFT_STICK, &blank);
    assert_eq!(c.left.x.neutral, 0x801, "unwritten block must not override");

    // With magic: applied.
    blank[0..2].copy_from_slice(&USER_MAGIC);
    c.absorb(addr::USER_LEFT_STICK, &blank);
    assert_eq!(c.left.x.neutral, 0x805);
}

#[test]
fn serial_is_trimmed_at_the_nul() {
    let mut c = Calibration::default();
    let mut blk = vec![0u8; 0x40];
    blk[2..8].copy_from_slice(b"ABC123");
    c.absorb(addr::SERIAL, &blk);
    assert_eq!(c.serial.as_deref(), Some("ABC123"));
}

#[test]
fn y_inversion_flips_only_the_requested_stick() {
    let raw = RawState {
        left_stick: (2048, 4095),
        right_stick: (2048, 4095),
        ..Default::default()
    };
    let mut c = Calibration::default();
    assert_eq!(value(c.apply(&raw).main.1), 1.0);
    c.invert_left_y = true;
    let s = c.apply(&raw);
    assert_eq!(value(s.main.1), -1.0);
    assert_eq!(value(s.c_stick.1), 1.0);
}

/// The axis in plain single precision.
fn axis_in_floats(c: &AxisCal, raw: u16) -> f32 {
    if !c.is_valid() {
        return ((f32::from(raw) - 2048.0) / 2047.0).clamp(-1.0, 1.0);
    }
    let delta = f32::from(raw) - f32::from(c.neutral);
    let range = if delta >= 0.0 { c.max } else { c.min };
    (delta / f32::from(range)).clamp(-1.0, 1.0)
}

#[test]
fn axes_agree_with_single_precision() {
    let cals = [
        cal(),
        AxisCal { neutral: 2033, max: 1217, min: 1189 },
        AxisCal { neutral: 2022, max: 3, min: 4095 },
        AxisCal { neutral: 1, max: 1, min: 7 },
        AxisCal::default(),
    ];
    for c in cals {
        for raw in 0..4096u16 {
            let expected = axis_in_floats(&c, raw);
            assert_eq!(c.apply(raw).to_bits(), expected.to_bits(), "{c:?} at {raw}");
        }
        assert_eq!(value(c.apply(u16::MAX)), 1.0);
    }
}

#[test]
fn axes_ascend() {
    let c = AxisCal { neutral: 2033, max: 1217, min: 1189 };
    for raw in 1..4096u16 {
        assert!(value(c.apply(raw)) >= value(c.apply(raw - 1)));
    }
}

#[test]
fn an_uncalibrated_axis_is_told_by_its_fields() {
    for c in [
        AxisCal { neutral: 0, max: 1, min: 1 },
        AxisCal { neutral: 1, max: 0, min: 1 },
        AxisCal { neutral: 1, max: 1, min: 0 },
    ] {
        assert!(!c.is_valid(), "{c:?}");
        assert_eq!(value(c.apply(3072)), value(AxisCal::default().apply(3072)));
    }
}

/// The trigger in plain single precision.
fn trigger_in_floats(zero: u8, deadzone: f32, raw: u8) -> f32 {
    let zero = f32::from(zero);
    let span = 232.0 - zero;
    if span <= 0.0 {
        return 0.0;
    }
    let v = ((f32::from(raw) - zero) / span).clamp(0.0, 1.0);
    let dz = deadzone.clamp(0.0, 1.0);
    if v == 1.0 {
        return 1.0;
    }
    if v <= dz {
        return 0.0;
    }
    ((v - dz) / (1.0 - dz)).clamp(0.0, 1.0)
}

#[test]
fn triggers_agree_with_single_precision() {
    for deadzone in [0.0, 0.02, 0.1, 0.333, 0.5, 0.75, 0.9, 0.95, 0.99, 1.0, 1.5, -0.25, 1e-40] {
        for zero in 0..=255u8 {
            for raw in 0..=255u8 {
                let expected = trigger_in_floats(zero, deadzone, raw);
                assert_eq!(trigger(zero, deadzone, raw), expected, "{zero} {deadzone} {raw}");
            }
        }
    }
}

#[test]
fn travel_below_a_wide_deadzone_reads_released() {
    assert_eq!(trigger(0x00, 0.95, 220), 0.0);
    assert!(trigger(0x00, 0.95, 221) > 0.0);
    for deadzone in [0.0, 0.02, 0.5, 0.9, 0.95, 0.999, 1.0] {
        for raw in 0..232u8 {
            if f32::from(raw) / 232.0 < deadzone {
                assert_eq!(trigger(0x00, deadzone, raw), 0.0, "{raw} below {deadzone}");
            }
        }
        assert_eq!(trigger(0x00, deadzone, 232), 1.0);
        assert_eq!(trigger(0x1F, deadzone, 0xFF), 1.0);
    }
}

#[test]
fn triggers_ascend() {
    for raw in 1..=255u8 {
        assert!(trigger(0x23, 0.02, raw) >= trigger(0x23, 0.02, raw - 1));
    }
}

#[test]
fn short_blocks_are_ignored() {
    assert_eq!(StickCal::parse(&[1; 8]), None);
    let mut c = Calibration::default();
    c.absorb(addr::LEFT_STICK, &[0x55; 0x30]);
    c.absorb(addr::RIGHT_STICK, &[0x55; 0x10]);
    c.absorb(addr::TRIGGER_ZEROS, &[0x55]);
    c.absorb(addr::SERIAL, &[0x55; 0x12]);
    c.absorb(addr::USER_RIGHT_STICK, &USER_MAGIC);
    c.absorb(0xdead_beef, &[0x55; 0x40]);
    assert_eq!(c.left, Calibration::default().left);
    assert_eq!(c.right, Calibration::default().right);
    assert_eq!((c.trigger_l_zero, c.trigger_r_zero), (0, 0));
    assert_eq!(c.serial, None);
}

#[test]
fn unwritten_blocks_are_ignored() {
    for fill in [0x00u8, 0xFF] {
        let mut c = Calibration::default();
        c.absorb(addr::USER_LEFT_STICK, &[fill; 0x40]);
        c.absorb(addr::USER_RIGHT_STICK, &[fill; 0x40]);
        assert_eq!(c.left, Calibration::default().left);
        assert_eq!(c.right, Calibration::default().right);
    }
}

#[test]
fn each_block_fills_its_own_part() {
    let packed = [0x01, 0x28, 0x80, 0x01, 0x21, 0x10, 0x01, 0x22, 0x20];
    let stick = StickCal::parse(&packed).unwrap();
    let mut factory = [0u8; 0x40];
    factory[FACTORY_STICK_OFFSET..FACTORY_STICK_OFFSET + 9].copy_from_slice(&packed);
    let mut user = [0u8; 0x40];
    user[..2].copy_from_slice(&USER_MAGIC);
    user[2..11].copy_from_slice(&packed);

    let blank = Calibration::default();
    for (address, block, left) in [
        (addr::LEFT_STICK, factory, true),
        (addr::RIGHT_STICK, factory, false),
        (addr::USER_LEFT_STICK, user, true),
        (addr::USER_RIGHT_STICK, user, false),
    ] {
        let mut c = Calibration::default();
        c.absorb(address, &block);
        assert_eq!(c.left, if left { stick } else { blank.left });
        assert_eq!(c.right, if left { blank.right } else { stick });
    }
    let mut c = Calibration::default();
    c.absorb(addr::TRIGGER_ZEROS, &[0x23, 0x1F]);
    assert_eq!((c.trigger_l_zero, c.trigger_r_zero), (0x23, 0x1F));
}

#[test]
fn a_serial_is_text_without_the_space_around_it() {
    let serial = |field: &[u8]| {
        let mut c = Calibration::default();
        let mut blk = vec![0u8; 0x40];
        blk[2..2 + field.len()].copy_from_slice(field);
        c.absorb(addr::SERIAL, &blk);
        c.serial
    };
    assert_eq!(serial(b" HEJ71001123456  ").as_deref(), Some("HEJ71001123456"));
    assert_eq!(serial(b"0123456789ABCDEFG").as_deref(), Some("0123456789ABCDEFG"));
    assert_eq!(serial("caf\u{e9}".as_bytes()).as_deref(), Some("caf\u{e9}"));
    assert_eq!(serial(b"A\xffB").as_deref(), Some("A\u{fffd}B"));
    assert_eq!(serial("\u{3000}x\u{2028}".as_bytes()).as_deref(), Some("x"));
    assert_eq!(serial(b"   \t"), None);
    assert_eq!(serial(b""), None);
}

#[test]
fn every_button_has_its_bit() {
    let cal = Calibration::default();
    let held = |bit: u32| cal.apply(&RawState { buttons: 1 << bit, ..Default::default() });
    assert!(held(bit::A).a && held(bit::B).b && held(bit::X).x && held(bit::Y).y);
    assert!(held(bit::Z).z && held(bit::START).start);
    assert!(held(bit::L_CLICK).l && held(bit::R_CLICK).r);
    assert!(held(bit::DPAD_UP).d_up && held(bit::DPAD_DOWN).d_down);
    assert!(held(bit::DPAD_LEFT).d_left && held(bit::DPAD_RIGHT).d_right);
    assert!(held(bit::HOME).home && held(bit::CAPTURE).capture && held(bit::C).c_button);
    let s = held(bit::A);
    assert!(!s.b && !s.x && !s.y && !s.z && !s.start && !s.l && !s.r && !s.c_button);
}

#[test]
fn readings_of_a_report_come_from_their_own_axes() {
    let mut cal = Calibration::default();
    cal.left.x = AxisCal { neutral: 2000, max: 1000, min: 800 };
    cal.right.y = AxisCal { neutral: 2100, max: 400, min: 200 };
    cal.trigger_l_zero = 0x20;
    cal.trigger_r_zero = 0x30;
    cal.trigger_deadzone = Reading::from_bits(0.02f32.to_bits()).unwrap();
    cal.invert_right_y = true;
    let raw = RawState {
        buttons: 0,
        left_stick: (2250, 3072),
        right_stick: (1024, 2000),
        trigger_l: 0x84,
        trigger_r: 0x31,
    };
    let s = cal.apply(&raw);
    let open = AxisCal::default();
    assert_eq!((value(s.main.0), value(s.main.1)), (0.25, axis_in_floats(&open, 3072)));
    assert_eq!((value(s.c_stick.0), value(s.c_stick.1)), (axis_in_floats(&open, 1024), 0.5));
    assert_eq!(value(s.trigger_l), trigger_in_floats(0x20, 0.02, 0x84));
    assert_eq!(value(s.trigger_r), 0.0);
}
