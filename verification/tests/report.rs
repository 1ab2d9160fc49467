use gc_controller::protocol::report::{
    decode, unpack_12, unpack_stick, BLE_BODY_OFFSET, OFF_BUTTONS, OFF_LEFT_STICK, OFF_RIGHT_STICK,
    OFF_TRIGGER_L, OFF_TRIGGER_R, USB_BODY_OFFSET,
};
use gc_controller::protocol::state::{bit, RawState};

/// Packs two 12-bit values into three bytes.
fn pack((x, y): (u16, u16)) -> [u8; 3] {
    [
        (x & 0xFF) as u8,
        (((y & 0x0F) << 4) | (x >> 8)) as u8,
        (y >> 4) as u8,
    ]
}

/// Builds a synthetic 63-byte body with known field values.
fn body(buttons: u32, l: (u16, u16), r: (u16, u16), tl: u8, tr: u8) -> Vec<u8> {
    let mut b = vec![0u8; 63];
    b[OFF_BUTTONS..OFF_BUTTONS + 4].copy_from_slice(&buttons.to_le_bytes());
    b[OFF_LEFT_STICK..OFF_LEFT_STICK + 3].copy_from_slice(&pack(l));
    b[OFF_RIGHT_STICK..OFF_RIGHT_STICK + 3].copy_from_slice(&pack(r));
    b[OFF_TRIGGER_L] = tl;
    b[OFF_TRIGGER_R] = tr;
    b
}

#[test]
fn round_trips_packed_12_bit_sticks() {
    let b = body(0, (0x7FF, 0x123), (0xABC, 0x001), 0, 0);
    let s = decode(&b, BLE_BODY_OFFSET).unwrap();
    assert_eq!(s.left_stick, (0x7FF, 0x123));
    assert_eq!(s.right_stick, (0xABC, 0x001));
}

#[test]
fn decodes_buttons_and_triggers() {
    let bits = (1 << bit::A) | (1 << bit::Z) | (1 << bit::DPAD_LEFT);
    let b = body(bits, (0, 0), (0, 0), 0x20, 0xE8);
    let s = decode(&b, BLE_BODY_OFFSET).unwrap();
    assert!(s.pressed(bit::A) && s.pressed(bit::Z) && s.pressed(bit::DPAD_LEFT));
    assert!(!s.pressed(bit::B) && !s.pressed(bit::START));
    assert_eq!((s.trigger_l, s.trigger_r), (0x20, 0xE8));
}

#[test]
fn usb_offset_skips_the_leading_prefix_byte() {
    let mut usb = vec![0xAAu8]; // prefix
    usb.extend_from_slice(&body(1 << bit::START, (0x111, 0x222), (0, 0), 1, 2));
    let s = decode(&usb, USB_BODY_OFFSET).unwrap();
    assert!(s.pressed(bit::START));
    assert_eq!(s.left_stick, (0x111, 0x222));
}

#[test]
fn rejects_short_frames() {
    assert!(decode(&[0u8; 40], BLE_BODY_OFFSET).is_none());
    assert!(decode(&[0u8; 62], USB_BODY_OFFSET).is_none());
    assert!(decode(&[0u8; 63], USB_BODY_OFFSET).is_some());
}

#[test]
fn the_shortest_body_is_decoded() {
    assert!(decode(&[0u8; 62], BLE_BODY_OFFSET).is_some());
    assert!(decode(&[0u8; 61], BLE_BODY_OFFSET).is_none());
    assert!(decode(&[], 5).is_none());
    assert!(decode(&[0u8; 100], usize::MAX).is_none());
}

#[test]
fn every_12_bit_pair_reads_back() {
    for x in (0..4096u16).step_by(7) {
        for y in (0..4096u16).step_by(5) {
            let [a, b, c] = pack((x, y));
            assert_eq!(unpack_12(a, b, c), (x, y));
        }
    }
    assert_eq!(unpack_stick(&[0, 0x01, 0x28, 0x80], 1), (0x801, 0x802));
}

#[test]
fn a_written_body_reads_back() {
    let b = body(0x89AB_CDEF, (0x123, 0x456), (0x789, 0xABC), 0x11, 0xFE);
    let expected = RawState {
        buttons: 0x89AB_CDEF,
        left_stick: (0x123, 0x456),
        right_stick: (0x789, 0xABC),
        trigger_l: 0x11,
        trigger_r: 0xFE,
    };
    assert_eq!(decode(&b, BLE_BODY_OFFSET), Some(expected));
    let shifted: Vec<u8> = [0x05, 0x77].into_iter().chain(b).collect();
    assert_eq!(decode(&shifted, 2), Some(expected));
}

#[test]
fn a_new_state_is_at_rest() {
    let s = RawState::default();
    assert_eq!(s.buttons, 0);
    assert_eq!((s.left_stick, s.right_stick), ((0, 0), (0, 0)));
    assert!((0..32).all(|bit| !s.pressed(bit)));
    assert!(RawState { buttons: 1 << 31, ..s }.pressed(31));
}
