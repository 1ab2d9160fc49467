use gc_controller::protocol::command::{
    flash_read, frame_len, init_sequence, on_wire, response_matches, set_player_leds, with_iface,
    Iface,
};

#[test]
fn init_frames_are_exactly_their_declared_length() {
    for frame in &init_sequence() {
        assert_eq!(frame_len(frame), frame.len(), "bad frame {frame:02x?}");
    }
}

#[test]
fn flash_read_encodes_address_little_endian() {
    let f = flash_read(0x0001_3140, Iface::Usb);
    assert_eq!(&f[12..16], &[0x40, 0x31, 0x01, 0x00]);
}

#[test]
fn with_iface_rewrites_only_the_interface_byte() {
    let sequence = init_sequence();
    let ble = with_iface(&sequence[0], Iface::Ble);
    assert_eq!(ble[2], 0x01);
    assert_eq!(ble[0], sequence[0][0]);
    assert_eq!(ble[3], sequence[0][3]);
}

#[test]
fn response_must_match_command_and_subcommand() {
    let req = [0x03, 0x91, 0x00, 0x0d];
    assert!(response_matches(&req, &[0x03, 0x01, 0x01, 0x0d, 0x10, 0x78]));
    // Right command, wrong subcommand — a stale ack from an earlier write.
    assert!(!response_matches(&req, &[0x03, 0x01, 0x01, 0x0a, 0x10, 0x78]));
    // Error type.
    assert!(!response_matches(&req, &[0x03, 0x00, 0x01, 0x0d]));
}

#[test]
fn a_reply_must_be_long_enough_to_tell() {
    let req = [0x03, 0x91, 0x00, 0x0d];
    assert!(response_matches(&req, &[0x03, 0x01, 0x00, 0x0d]));
    assert!(!response_matches(&req, &[0x03, 0x01, 0x00]));
    assert!(!response_matches(&req[..3], &[0x03, 0x01, 0x00, 0x0d]));
    assert!(!response_matches(&req, &[0x04, 0x01, 0x00, 0x0d]));
}

#[test]
fn the_sequence_has_ten_frames_written_for_the_cable() {
    let sequence = init_sequence();
    assert_eq!(sequence.len(), 10);
    for frame in &sequence {
        assert_eq!(&with_iface(frame, Iface::Usb), frame);
        let ble = with_iface(frame, Iface::Ble);
        assert_eq!(&with_iface(&ble, Iface::Usb), frame);
        assert_eq!(frame_len(&ble), frame.len());
    }
    assert_eq!(sequence[9][..4], [0x03, 0x91, 0x00, 0x0d]);
}

#[test]
fn a_frame_is_cut_to_its_declared_length() {
    let long = [0x07, 0x91, 0x00, 0x01, 0x00, 0x02, 0x00, 0x00, 0xaa, 0xbb, 0xcc];
    assert_eq!(frame_len(&long), 10);
    assert_eq!(on_wire(&long), &long[..10]);
    // What declares more than there is goes out as it is.
    assert_eq!(frame_len(&long[..9]), 9);
    assert_eq!(frame_len(&long[..5]), 5);
    assert_eq!(frame_len(&[]), 0);
}

#[test]
fn short_frames_have_no_interface_byte() {
    assert_eq!(with_iface(&[0x07, 0x91], Iface::Ble), vec![0x07, 0x91]);
    assert_eq!(with_iface(&[0x07, 0x91, 0x00], Iface::Ble), vec![0x07, 0x91, 0x01]);
}

#[test]
fn a_flash_request_reads_one_block() {
    assert_eq!(
        flash_read(0x001F_C040, Iface::Ble),
        [0x02, 0x91, 0x01, 0x01, 0x00, 0x08, 0x00, 0x00, 0x00, 0x00, 0x00, 0x00, 0x40, 0xc0, 0x1f, 0]
    );
    let f = flash_read(0xDEAD_BEEF, Iface::Usb);
    assert_eq!(u32::from_le_bytes([f[12], f[13], f[14], f[15]]), 0xDEAD_BEEF);
    assert_eq!(frame_len(&f), 16);
}

#[test]
fn an_indicator_request_carries_its_mask() {
    let f = set_player_leds(0x05, Iface::Ble);
    assert_eq!(f, [0x09, 0x91, 0x01, 0x07, 0, 8, 0, 0, 0x05, 0, 0, 0, 0, 0, 0, 0]);
    assert_eq!(frame_len(&f), f.len());
    assert_eq!((Iface::Usb.code(), Iface::Ble.code()), (0x00, 0x01));
}
