use gc_controller::reading::Reading;
use gc_controller::text::{contains, trim, white_space};

fn value(r: Reading) -> f32 {
    f32::from_bits(r.to_bits())
}

/// Values that stress rounding: ends, ties, denormals, and a spread.
fn samples() -> Vec<f32> {
    let mut v = vec![
        0.0,
        -0.0,
        1.0,
        -1.0,
        0.5,
        0.25,
        0.03125,
        0.5 + f32::EPSILON,
        1.0 - f32::EPSILON / 2.0,
        f32::MIN_POSITIVE,
        f32::from_bits(1),
        f32::from_bits(0x007f_ffff),
        1e-10,
        0.1,
        0.2,
        0.9,
        0.99,
        0.99995,
        0.00005,
        0.00015,
    ];
    let mut seed: u32 = 12345;
    for _ in 0..20_000 {
        seed = seed.wrapping_mul(1_664_525).wrapping_add(1_013_904_223);
        let f = f32::from_bits(seed);
        if f.abs() <= 1.0 {
            v.push(f);
        } else {
            v.push((seed >> 8) as f32 / 16_777_216.0);
            v.push(-((seed >> 8) as f32) / 16_777_216.0);
        }
    }
    v
}

#[test]
fn bits_read_back() {
    for v in samples() {
        let r = Reading::from_bits(v.to_bits()).unwrap();
        assert_eq!(r.to_bits(), v.to_bits());
        assert_eq!(r.negative(), v.is_sign_negative());
        assert_eq!(r.negated().to_bits(), (-v).to_bits());
    }
}

#[test]
fn only_readings_are_taken() {
    for v in [1.5, -1.0001, f32::INFINITY, f32::NEG_INFINITY, f32::NAN, f32::MAX] {
        assert!(Reading::from_bits(v.to_bits()).is_none(), "{v}");
    }
}

#[test]
fn other_numbers_are_clamped() {
    let clamped = |v: f32| Reading::clamped_from_bits(v.to_bits()).map(value);
    assert_eq!(clamped(1.5), Some(1.0));
    assert_eq!(clamped(f32::INFINITY), Some(1.0));
    assert_eq!(clamped(-7.0), Some(-1.0));
    assert_eq!(clamped(f32::NEG_INFINITY), Some(-1.0));
    assert_eq!(clamped(0.02), Some(0.02));
    assert_eq!(clamped(f32::NAN), None);
}

#[test]
fn readings_compare_by_value() {
    let zero = Reading::zero();
    assert!(zero == zero.negated());
    assert!(Reading::full() != Reading::full().negated());
    assert_eq!((value(zero), value(Reading::full())), (0.0, 1.0));
}

#[test]
fn ratios_agree_with_single_precision() {
    for range in [1u32, 2, 3, 7, 232, 800, 1000, 1217, 2047, 4095, 65_535] {
        for n in (-70_000i32..70_000).step_by(13) {
            let expected = (n as f32 / range as f32).clamp(-1.0, 1.0);
            assert_eq!(Reading::ratio(n, range).to_bits(), expected.to_bits(), "{n}/{range}");
        }
    }
}

#[test]
fn unit_axes_agree_with_single_precision() {
    for v in samples() {
        let expected = ((v + 1.0) / 2.0).clamp(0.0, 1.0);
        let r = Reading::from_bits(v.to_bits()).unwrap();
        assert_eq!(value(r.to_unit()), expected, "{v}");
    }
}

#[test]
fn deadzones_agree_with_single_precision() {
    let deadzones = [0.0f32, 0.02, 0.1, 0.3, 0.5, 0.77, 0.9, 0.95, 1.0, -0.5, 1e-42];
    for v in samples() {
        let v = v.abs();
        let r = Reading::from_bits(v.to_bits()).unwrap();
        for dz in deadzones {
            let deadzone = Reading::from_bits(dz.to_bits()).unwrap();
            let dz = dz.clamp(0.0, 1.0);
            let expected = if v == 1.0 {
                1.0
            } else if v <= dz {
                0.0
            } else {
                ((v - dz) / (1.0 - dz)).clamp(0.0, 1.0)
            };
            assert_eq!(value(r.past_deadzone(deadzone)), expected, "{v} past {dz}");
        }
    }
}

#[test]
fn steps_agree_with_print() {
    for v in samples() {
        let r = Reading::from_bits(v.to_bits()).unwrap();
        for (scale, places) in [(10u32, 1usize), (100, 2), (1_000, 3), (10_000, 4)] {
            let steps = r.steps(scale);
            let printed = format!("{:.*}", places, v.abs());
            let shown = format!("{}.{:0places$}", steps / scale, steps % scale);
            assert_eq!(shown, printed, "{v}");
        }
    }
}

#[test]
fn white_space_is_what_unicode_says() {
    for c in '\0'..=char::MAX {
        assert_eq!(white_space(c), c.is_whitespace(), "{c:?}");
    }
    for s in ["", " ", " a ", "\t\u{a0}x y\u{2003}\n", "abc", "\u{200b} z"] {
        assert_eq!(trim(s), s.trim());
    }
}

#[test]
fn parts_are_found_in_text() {
    for (s, part) in [
        ("NSO GameCube", "GameCube"),
        ("GameCub", "GameCube"),
        ("", ""),
        ("x", ""),
        ("", "x"),
        ("aab", "ab"),
        ("caf\u{e9} NSO", "NSO"),
        ("n\u{0}NS", "NSO"),
    ] {
        assert_eq!(contains(s, part), s.contains(part), "{s:?} {part:?}");
    }
}
