use gc_controller::protocol::calibration::{addr, Calibration, FACTORY_STICK_OFFSET, USER_MAGIC};
use gc_controller::protocol::command::{flash_read, init_sequence, set_player_leds, with_iface, Iface};
use gc_controller::protocol::state::RawState;
use gc_controller::protocol::{PID_NSO_GAMECUBE, VID_NINTENDO};
use gc_controller::reading::Reading;
use gc_controller::transport::ble::{
    display_name, find, find_controller, input_report, is_reply, looks_like_controller,
    notification, resolve,
    scan_round, uuids, Advert, Channels, Missing, Scan, NINTENDO_COMPANY_ID, SERVICE_ENABLE_VALUE,
};
use gc_controller::transport::ble_latency::{
    hooked, note, report_link, reported_params, Latency, Note, Scheduling,
};
use gc_controller::transport::startup::{
    flash_payload, Next, Outcome, Stage, Startup, Task, Warning, FLASH_REPLY,
};
use gc_controller::transport::usb::{
    find_bulk_endpoints, first_controller, is_present, keep_draining, poll, Endpoint, FlashReply,
    Poll, DRAIN_READS, PACKET,
};

// Bringing a controller up.

/// A reply that carries a block.
fn reply(block: &[u8]) -> Outcome {
    let mut bytes = vec![0xEEu8; 0x10];
    bytes.extend_from_slice(block);
    bytes.resize(FLASH_REPLY, 0);
    Outcome::Reply(bytes)
}

fn commands(iface: Iface) -> Vec<Task> {
    init_sequence().iter().map(|f| Task::Command(with_iface(f, iface))).collect()
}

fn reads(iface: Iface) -> Vec<Task> {
    Calibration::BLOCKS.iter().map(|&a| Task::Read(flash_read(a, iface).to_vec())).collect()
}

/// Runs a startup to its end, with the outcome that `outcome` gives for each
/// stage, and lists what was done.
fn run(
    startup: &mut Startup,
    outcome: &dyn Fn(Stage) -> Outcome,
) -> (Vec<Task>, Vec<Warning>, bool) {
    let (mut tasks, mut warnings) = (Vec::new(), Vec::new());
    let mut next = startup.next();
    loop {
        match next {
            Next::Do(task) => {
                tasks.push(task);
                let (warning, then) = startup.step(outcome(startup.stage()));
                warnings.extend(warning);
                next = then;
            }
            Next::Abort => return (tasks, warnings, false),
            Next::Finished => return (tasks, warnings, true),
        }
        assert!(tasks.len() < 100);
    }
}

#[test]
fn a_wired_controller_comes_up() {
    let mut startup = Startup::new(Iface::Usb);
    let (tasks, warnings, finished) = run(&mut startup, &|_| reply(&[0; 0x40]));
    let mut expected = vec![Task::Drain];
    expected.extend(reads(Iface::Usb));
    expected.extend(commands(Iface::Usb));
    expected.push(Task::Send(set_player_leds(0x01, Iface::Usb).to_vec()));
    assert_eq!(tasks, expected);
    assert_eq!(warnings, vec![]);
    assert!(finished);
    assert_eq!(startup.stage(), Stage::Over);
    assert_eq!(startup.step(Outcome::Failed), (None, Next::Finished));
}

#[test]
fn a_wireless_controller_comes_up() {
    let mut startup = Startup::new(Iface::Ble);
    let (tasks, warnings, finished) = run(&mut startup, &|_| reply(&[0; 0x40]));
    let mut expected = vec![Task::Enable, Task::Subscribe];
    expected.extend(reads(Iface::Ble));
    expected.extend(commands(Iface::Ble));
    expected.push(Task::Send(set_player_leds(0x01, Iface::Ble).to_vec()));
    expected.push(Task::Unsubscribe);
    assert_eq!(tasks, expected);
    assert_eq!(warnings, vec![]);
    assert!(finished);
}

#[test]
fn a_lost_block_is_asked_for_once_more_over_the_cable() {
    // It comes the second time.
    let mut startup = Startup::new(Iface::Usb);
    let (tasks, warnings, finished) = run(&mut startup, &|stage| match stage {
        Stage::Block(3) => Outcome::Failed,
        Stage::Again(3) => reply(&[0x23, 0x1F]),
        _ => Outcome::Reply(vec![0; FLASH_REPLY]),
    });
    assert!(finished);
    assert_eq!(warnings, vec![]);
    let read = Task::Read(flash_read(addr::TRIGGER_ZEROS, Iface::Usb).to_vec());
    assert_eq!(tasks[4], read);
    assert_eq!(tasks[5], Task::Drain);
    assert_eq!(tasks[6], read);
    let cal = startup.calibration(false, false, Reading::zero());
    assert_eq!((cal.trigger_l_zero, cal.trigger_r_zero), (0x23, 0x1F));

    // It never comes; a short reply is as good as none.
    let mut startup = Startup::new(Iface::Usb);
    let (tasks, warnings, finished) = run(&mut startup, &|stage| match stage {
        Stage::Block(_) => Outcome::Reply(vec![0; FLASH_REPLY - 1]),
        Stage::Again(_) => Outcome::Failed,
        _ => Outcome::Done,
    });
    assert!(finished);
    assert_eq!(tasks.len(), 1 + 3 * 6 + 10 + 1);
    let unread: Vec<Warning> = Calibration::BLOCKS.iter().map(|&a| Warning::Block(a)).collect();
    assert_eq!(warnings, unread);
}

#[test]
fn a_lost_block_is_passed_over_over_the_air() {
    let mut startup = Startup::new(Iface::Ble);
    let (tasks, warnings, finished) = run(&mut startup, &|stage| match stage {
        Stage::Block(0) => Outcome::Failed,
        Stage::Block(5) => Outcome::Reply(vec![]),
        Stage::Block(_) => reply(&[0; 0x40]),
        Stage::Init(3) => Outcome::Failed,
        _ => Outcome::Done,
    });
    assert!(finished);
    assert_eq!(tasks.len(), 2 + 6 + 10 + 2);
    assert_eq!(
        warnings,
        vec![
            Warning::Block(addr::SERIAL),
            Warning::Block(addr::USER_RIGHT_STICK),
            Warning::Init(0x0a, 0x08),
        ]
    );
}

#[test]
fn a_lost_command_is_fatal_over_the_cable() {
    let mut startup = Startup::new(Iface::Usb);
    let (tasks, warnings, finished) = run(&mut startup, &|stage| match stage {
        Stage::Block(_) => reply(&[0; 0x40]),
        Stage::Init(2) => Outcome::Failed,
        _ => Outcome::Done,
    });
    assert!(!finished);
    assert_eq!(warnings, vec![]);
    assert_eq!(tasks.last(), commands(Iface::Usb).get(2));
}

#[test]
fn a_failed_subscription_is_fatal_and_nothing_else_over_the_air() {
    let mut startup = Startup::new(Iface::Ble);
    let (tasks, _, finished) = run(&mut startup, &|stage| match stage {
        Stage::Listen => Outcome::Failed,
        _ => Outcome::Done,
    });
    assert!(!finished);
    assert_eq!(tasks, vec![Task::Enable, Task::Subscribe]);

    let mut startup = Startup::new(Iface::Ble);
    let (_, warnings, finished) = run(&mut startup, &|stage| match stage {
        Stage::Listen => Outcome::Done,
        _ => Outcome::Failed,
    });
    assert!(finished);
    assert_eq!(warnings.len(), 6 + 10);
}

#[test]
fn calibration_is_absorbed_as_it_is_read() {
    let packed = [0x01, 0x28, 0x80, 0x01, 0x21, 0x10, 0x01, 0x22, 0x20];
    let mut factory = [0u8; 0x40];
    factory[FACTORY_STICK_OFFSET..FACTORY_STICK_OFFSET + 9].copy_from_slice(&packed);
    let mut user = [0u8; 0x40];
    user[..2].copy_from_slice(&USER_MAGIC);
    user[2..11].copy_from_slice(&packed);
    user[2] = 0x05;

    let mut startup = Startup::new(Iface::Usb);
    let (_, _, finished) = run(&mut startup, &|stage| match stage {
        Stage::Block(0) => reply(b"\x00\x00HEJ7100\x00"),
        Stage::Block(1) | Stage::Block(2) => reply(&factory),
        Stage::Block(3) => reply(&[0x23, 0x1F]),
        Stage::Block(4) => reply(&user),
        Stage::Block(5) => reply(&[0xFF; 0x40]),
        _ => Outcome::Done,
    });
    assert!(finished);
    let deadzone = Reading::from_bits(0.02f32.to_bits()).unwrap();
    let cal = startup.calibration(true, false, deadzone);
    assert_eq!(cal.serial.as_deref(), Some("HEJ7100"));
    assert_eq!((cal.left.x.neutral, cal.right.x.neutral), (0x805, 0x801));
    assert_eq!((cal.trigger_l_zero, cal.trigger_r_zero), (0x23, 0x1F));
    assert_eq!((cal.invert_left_y, cal.invert_right_y), (true, false));
    assert!(cal.trigger_deadzone == deadzone);
}

#[test]
fn a_block_stands_behind_the_header_of_its_reply() {
    let bytes: Vec<u8> = (0..0x60).collect();
    let block: Vec<u8> = (0x10..0x50).collect();
    assert_eq!(flash_payload(&bytes), Some(&block[..]));
    assert_eq!(flash_payload(&bytes[..0x50]), Some(&block[..]));
    assert_eq!(flash_payload(&bytes[..0x4f]), None);
}

// The cable.

#[test]
fn polls_are_told_apart() {
    assert_eq!(poll(&[]), Poll::Idle);
    assert_eq!(poll(&[0x30; 64]), Poll::Unknown(64));
    assert_eq!(poll(&[0x05; 20]), Poll::Unknown(20));
    let mut frame = [0u8; 64];
    frame[0] = 0x05;
    frame[1 + 4] = 0x08;
    let expected = RawState { buttons: 8, ..Default::default() };
    assert_eq!(poll(&frame), Poll::Report(expected));
    assert_eq!(poll(&frame[..63]), Poll::Report(expected));
    assert_eq!(poll(&frame[..62]), Poll::Unknown(62));
}

#[test]
fn the_first_controller_on_the_bus_is_taken() {
    let other = Some((VID_NINTENDO, 0x2009));
    let ours = Some((VID_NINTENDO, PID_NSO_GAMECUBE));
    assert_eq!(first_controller(&[None, other, ours, ours]), Some(2));
    assert_eq!(first_controller(&[None, other, Some((0x1234, PID_NSO_GAMECUBE))]), None);
    assert!(is_present(&[other, ours]));
    assert!(!is_present(&[other, None]));
    assert!(!is_present(&[]));
}

#[test]
fn bulk_endpoints_are_found_on_the_vendor_interface() {
    let ep = |interface, bulk, incoming, address| Endpoint { interface, bulk, incoming, address };
    let all = [
        ep(0, false, true, 0x81),
        ep(0, true, true, 0x85),
        ep(1, false, true, 0x86),
        ep(1, true, false, 0x02),
        ep(1, true, true, 0x82),
    ];
    assert_eq!(find_bulk_endpoints(&all), Some((0x82, 0x02)));
    assert_eq!(find_bulk_endpoints(&all[..4]), None);
    assert_eq!(find_bulk_endpoints(&[]), None);
    // The last one counts.
    let mut more = all.to_vec();
    more.push(ep(1, true, true, 0x83));
    assert_eq!(find_bulk_endpoints(&more), Some((0x83, 0x02)));
}

#[test]
fn draining_ends() {
    assert!(keep_draining(0, 0));
    assert!(keep_draining(1, 5));
    assert!(!keep_draining(1, 0));
    assert!(keep_draining(DRAIN_READS - 1, 64));
    assert!(!keep_draining(DRAIN_READS, 64));
}

#[test]
fn a_flash_reply_is_put_together() {
    let mut r = FlashReply::new();
    assert_eq!(r.room(), PACKET);
    r.take(&[1; 64]);
    assert_eq!(r.room(), 16);
    r.take(&[2; 10]);
    assert_eq!(r.room(), 6);
    r.take(&[3; 6]);
    assert_eq!(r.room(), 0);
    assert_eq!(r.bytes().len(), FLASH_REPLY);
    assert_eq!((r.bytes()[63], r.bytes()[64], r.bytes()[79]), (1, 2, 3));

    // A read that gives nothing ends it.
    let mut r = FlashReply::new();
    r.take(&[1; 20]);
    assert_eq!(r.room(), 60);
    r.take(&[]);
    assert_eq!(r.room(), 0);
    assert_eq!(r.bytes(), &[1; 20]);
    assert_eq!(flash_payload(r.bytes()), None);
}

// The air.

#[test]
fn characteristics_are_resolved() {
    let (input, command, response, enable) = (
        0xab7de9be_89fe_49ad_828f_118f09df7fd2u128,
        0x649d4ac9_8eb7_4e6c_af44_1ea54fe5f005u128,
        0xc765a961_d9d8_4d36_a20a_5315b111836au128,
        0x00c5af5d_1964_4e30_8f51_1956f96bd282u128,
    );
    assert_eq!(
        resolve(&[7, response, input, 9, command, enable, input]),
        Ok(Channels { input: 2, command: 4, response: 1, enable: Some(5) })
    );
    assert_eq!(
        resolve(&[input, command, response]),
        Ok(Channels { input: 0, command: 1, response: 2, enable: None })
    );
    assert_eq!(resolve(&[]), Err(Missing::Input));
    assert_eq!(resolve(&[command, response, enable]), Err(Missing::Input));
    assert_eq!(resolve(&[input, response]), Err(Missing::Command));
    assert_eq!(resolve(&[input, command]), Err(Missing::Response));
}

#[test]
fn the_named_uuids_have_their_values() {
    for (text, id) in [
        (uuids::INPUT_REPORT, uuids::INPUT_REPORT_ID),
        (uuids::COMMAND_WRITE, uuids::COMMAND_WRITE_ID),
        (uuids::COMMAND_RESPONSE, uuids::COMMAND_RESPONSE_ID),
        (uuids::SERVICE_ENABLE, uuids::SERVICE_ENABLE_ID),
    ] {
        assert_eq!(uuid::Uuid::parse_str(text).unwrap().as_u128(), id);
    }
    assert_eq!(SERVICE_ENABLE_VALUE, [0x01, 0x00]);
}

#[test]
fn the_first_of_equal_characteristics_is_found() {
    assert_eq!(find(&[3, 1, 2, 1], Some(1)), Some(1));
    assert_eq!(find(&[3, 1, 2, 1], Some(4)), None);
    assert_eq!(find(&[3, 1, 2, 1], None), None);
}

fn advert(companies: &[u16], name: Option<&str>) -> Advert {
    Advert { companies: companies.to_vec(), name: name.map(String::from) }
}

#[test]
fn controllers_are_recognised() {
    assert!(looks_like_controller(&advert(&[0x004c, NINTENDO_COMPANY_ID], None)));
    assert!(looks_like_controller(&advert(&[], Some("My NSO pad"))));
    assert!(looks_like_controller(&advert(&[0x004c], Some("Nintendo Switch"))));
    assert!(looks_like_controller(&advert(&[], Some("GameCube"))));
    assert!(!looks_like_controller(&advert(&[0x004c], None)));
    assert!(!looks_like_controller(&advert(&[], Some("gamecube"))));
    assert!(!looks_like_controller(&advert(&[], Some(""))));
}

#[test]
fn the_first_candidate_is_taken() {
    let adverts = [
        None,
        Some(advert(&[1], Some("Headphones"))),
        Some(advert(&[NINTENDO_COMPANY_ID], None)),
        Some(advert(&[], Some("NSO"))),
    ];
    assert_eq!(find_controller(&adverts), Some(2));
    assert_eq!(find_controller(&adverts[..2]), None);
}

#[test]
fn a_scan_ends_one_way_or_another() {
    let seen = [Some(advert(&[NINTENDO_COMPANY_ID], None))];
    let second = 1_000_000_000u128;
    assert_eq!(scan_round(&seen, true, 0, 20), Scan::Found(0));
    assert_eq!(scan_round(&seen, false, 99 * second, 20), Scan::Found(0));
    assert_eq!(scan_round(&[], false, 99 * second, 20), Scan::Cancelled);
    assert_eq!(scan_round(&[], true, 20 * second, 20), Scan::TimedOut);
    assert_eq!(scan_round(&[], true, 20 * second - 1, 20), Scan::Wait);
    assert_eq!(scan_round(&[], true, 0, 0), Scan::TimedOut);
    assert_eq!(scan_round(&[], true, second, u64::MAX), Scan::Wait);
}

#[test]
fn a_nameless_peripheral_is_given_a_name() {
    assert_eq!(display_name(None), "NSO GameCube Controller");
    assert_eq!(display_name(Some("Pad".to_string())), "Pad");
}

#[test]
fn replies_come_on_their_own_characteristic() {
    let frame = [0x02, 0x91, 0x01, 0x01];
    let value = [0x02, 0x01, 0x01, 0x01];
    assert!(is_reply(&frame, 7, 7, &value));
    assert!(!is_reply(&frame, 7, 8, &value));
    assert!(!is_reply(&frame, 7, 7, &[0x03, 0x01, 0x01, 0x01]));
}

#[test]
fn reports_come_on_their_own_characteristic() {
    let mut value = [0u8; 63];
    value[60] = 0x44;
    let state = input_report(7, 7, &value).unwrap();
    assert_eq!(state.trigger_l, 0x44);
    assert_eq!(input_report(7, 8, &value), None);
    assert_eq!(input_report(7, 7, &value[..61]), None);
}

#[test]
fn notifications_are_told_apart() {
    let mut value = [0u8; 63];
    value[61] = 0x55;
    let expected = RawState { trigger_r: 0x55, ..Default::default() };
    assert_eq!(notification(7, 7, &value), Poll::Report(expected));
    assert_eq!(notification(7, 7, &value[..61]), Poll::Unknown(61));
    assert_eq!(notification(7, 7, &[]), Poll::Unknown(0));
    assert_eq!(notification(7, 8, &value), Poll::Idle);
}

// Link scheduling.

#[test]
fn system_asks_for_nothing() {
    assert_eq!(Latency::System.level(), -1);
    assert_eq!(Latency::Low.level(), 0);
}

#[test]
fn classes_have_their_levels() {
    assert_eq!(Latency::Medium.level(), 1);
    assert_eq!(Latency::High.level(), 2);
    assert_eq!(Latency::VeryHigh.level(), 3);
}

#[test]
fn both_central_hooks_are_needed() {
    for hooks in 0..=8u32 {
        assert_eq!(hooked(hooks), hooks & 1 != 0 && hooks & 2 != 0, "{hooks:#b}");
    }
    assert!(hooked(u32::MAX));
}

#[test]
fn a_request_that_cannot_be_made_is_noted() {
    assert_eq!(note(Latency::System, false, false), None);
    assert_eq!(note(Latency::Low, false, true), Some(Note::Unsupported));
    assert_eq!(note(Latency::Low, true, false), Some(Note::Unhooked));
    assert_eq!(note(Latency::Low, true, true), None);
}

#[test]
fn the_link_report_tells_what_became_of_the_request() {
    assert_eq!(report_link(Latency::System, 2, 0), Scheduling::SystemDefault);
    assert_eq!(report_link(Latency::Low, 2, 1), Scheduling::Requested(Latency::Low, 2));
    assert_eq!(report_link(Latency::High, 0, 3), Scheduling::Lost(3));
}

#[test]
fn parameters_are_shown_as_they_were_reported() {
    assert_eq!(reported_params(0, b"ignored\0"), None);
    assert_eq!(reported_params(1, b"interval=24\0rest").as_deref(), Some("interval=24"));
    assert_eq!(reported_params(1, b"no end").as_deref(), Some("no end"));
    assert_eq!(reported_params(1, b"a\xffb\0").as_deref(), Some("a\u{fffd}b"));
}
