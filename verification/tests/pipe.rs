use gc_controller::output::pipe::{
    after_write, chunk_end, create, Action, Creation, DolphinPipe, Event, Flush, Found, PIPES_SUBDIR,
    PIPE_BUF,
};
use gc_controller::protocol::state::GcState;
use gc_controller::reading::Reading;

/// What Dolphin calls the buttons.
const BUTTONS: [&str; 12] = [
    "A", "B", "X", "Y", "Z", "START", "L", "R", "D_UP", "D_DOWN", "D_LEFT", "D_RIGHT",
];

fn reading(v: f32) -> Reading {
    Reading::from_bits(v.to_bits()).unwrap()
}

fn both(v: (f32, f32)) -> (Reading, Reading) {
    (reading(v.0), reading(v.1))
}

fn delta(prev: Option<&GcState>, next: &GcState) -> String {
    let mut s = String::new();
    DolphinPipe::encode_delta(&mut s, prev, next);
    s
}

#[test]
fn first_update_syncs_every_control() {
    let out = delta(None, &GcState::default());
    for name in BUTTONS {
        assert!(out.contains(&format!("RELEASE {name}\n")), "missing {name}");
    }
    assert!(out.contains("SET MAIN 0.5000 0.5000\n"));
    assert!(out.contains("SET C 0.5000 0.5000\n"));
    assert!(out.contains("SET L 0.0000\n"));
    assert!(out.contains("SET R 0.0000\n"));
}

#[test]
fn steady_state_emits_nothing() {
    let s = GcState { a: true, main: both((0.25, -0.5)), ..Default::default() };
    assert_eq!(delta(Some(&s), &s), "");
}

#[test]
fn only_the_changed_control_is_sent() {
    let prev = GcState::default();
    let next = GcState { a: true, ..Default::default() };
    assert_eq!(delta(Some(&prev), &next), "PRESS A\n");

    let after = GcState::default();
    assert_eq!(delta(Some(&next), &after), "RELEASE A\n");
}

#[test]
fn stick_range_maps_onto_dolphins_unit_axis() {
    let prev = GcState::default();
    let next = GcState {
        main: both((-1.0, 1.0)),
        c_stick: both((1.0, -1.0)),
        ..Default::default()
    };
    let out = delta(Some(&prev), &next);
    assert!(out.contains("SET MAIN 0.0000 1.0000\n"), "got {out}");
    assert!(out.contains("SET C 1.0000 0.0000\n"), "got {out}");
}

#[test]
fn sub_quantum_jitter_does_not_produce_traffic() {
    let prev = GcState { main: both((0.5, 0.0)), ..Default::default() };
    // Well under the 4th decimal place of the 0..1 output range.
    let next = GcState { main: both((0.500_01, 0.000_01)), ..Default::default() };
    assert_eq!(delta(Some(&prev), &next), "");
}

#[test]
fn a_change_at_the_printed_precision_is_sent() {
    let prev = GcState { main: both((0.0, 0.0)), ..Default::default() };
    let next = GcState { main: both((0.001, 0.0)), ..Default::default() };
    assert!(delta(Some(&prev), &next).starts_with("SET MAIN "));
}

#[test]
fn triggers_are_sent_in_dolphins_zero_to_one_range() {
    let prev = GcState::default();
    let next = GcState { trigger_l: reading(1.0), trigger_r: reading(0.5), ..Default::default() };
    let out = delta(Some(&prev), &next);
    assert!(out.contains("SET L 1.0000\n"), "got {out}");
    assert!(out.contains("SET R 0.5000\n"), "got {out}");
}

fn everything() -> GcState {
    GcState {
        a: true,
        b: true,
        x: true,
        y: true,
        z: true,
        start: true,
        l: true,
        r: true,
        d_up: true,
        d_down: true,
        d_left: true,
        d_right: true,
        main: both((-1.0, -1.0)),
        c_stick: both((-1.0, -1.0)),
        trigger_l: reading(1.0),
        trigger_r: reading(1.0),
        ..Default::default()
    }
}

#[test]
fn a_full_sync_fits_in_one_atomic_write() {
    // Every control differing at once is the largest delta possible.
    let out = delta(None, &everything());
    assert!(out.len() <= PIPE_BUF, "delta was {} bytes", out.len());
}

#[test]
fn a_full_sync_reads_as_dolphin_expects() {
    assert_eq!(
        delta(Some(&GcState::default()), &everything()),
        "PRESS A\nPRESS B\nPRESS X\nPRESS Y\nPRESS Z\nPRESS START\nPRESS L\nPRESS R\n\
         PRESS D_UP\nPRESS D_DOWN\nPRESS D_LEFT\nPRESS D_RIGHT\n\
         SET MAIN 0.0000 0.0000\nSET C 0.0000 0.0000\nSET L 1.0000\nSET R 1.0000\n"
    );
}

#[test]
fn commands_are_appended_to_what_the_buffer_holds() {
    let mut buf = String::from("PRESS B\n");
    let prev = GcState::default();
    let next = GcState { a: true, ..Default::default() };
    DolphinPipe::encode_delta(&mut buf, Some(&prev), &next);
    assert_eq!(buf, "PRESS B\nPRESS A\n");
    DolphinPipe::encode_delta(&mut buf, Some(&next), &next);
    assert_eq!(buf, "PRESS B\nPRESS A\n");
}

#[test]
fn buttons_that_dolphin_does_not_know_are_silent() {
    let next = GcState { home: true, capture: true, c_button: true, ..Default::default() };
    assert_eq!(delta(Some(&GcState::default()), &next), "");
}

/// A halfway value is printed to the even digit: 0.03125 as 0.0312. What
/// follows in print at 0.0313 is a change that Dolphin can see.
#[test]
fn a_tie_is_compared_as_it_is_printed() {
    let tie = GcState { trigger_l: reading(0.03125), ..Default::default() };
    let above = GcState { trigger_l: reading(0.0313), ..Default::default() };
    assert_eq!(delta(Some(&GcState::default()), &tie), "SET L 0.0312\n");
    assert_eq!(delta(Some(&tie), &above), "SET L 0.0313\n");
    let below = GcState { trigger_l: reading(0.0312), ..Default::default() };
    assert_eq!(delta(Some(&tie), &below), "");
}

/// Whatever is printed alike is silent, and only that.
#[test]
fn silence_and_print_agree() {
    let mut last: Option<(GcState, String)> = None;
    for step in 0..40_000u32 {
        let v = step as f32 / 39_999.0;
        let next = GcState {
            trigger_l: reading(v),
            main: both((v * 2.0 - 1.0, 0.0)),
            ..Default::default()
        };
        let unit = ((v * 2.0 - 1.0 + 1.0) / 2.0f32).clamp(0.0, 1.0);
        let printed = format!("SET MAIN {unit:.4} 0.5000\nSET L {v:.4}\n");
        let sync = delta(None, &next);
        assert!(sync.contains(&printed[..printed.find('\n').unwrap() + 1]), "{sync} {printed}");
        assert!(sync.contains(&printed[printed.find('\n').unwrap() + 1..]), "{sync} {printed}");
        if let Some((prev, was)) = &last {
            assert_eq!(delta(Some(prev), &next).is_empty(), *was == printed, "at {v}");
        }
        last = Some((next, printed));
    }
}

/// Opens a pipe and gives the first update.
fn open(state: &GcState) -> (DolphinPipe, Flush) {
    let mut pipe = DolphinPipe::new();
    assert!(!pipe.is_connected());
    assert!(pipe.update(state).is_none(), "the pipe has to be opened first");
    let flush = pipe.tried_open(true, state).unwrap();
    assert!(pipe.is_connected());
    (pipe, flush)
}

/// Has an update land whole.
fn land(pipe: &mut DolphinPipe, flush: &mut Flush) -> String {
    let mut text = Vec::new();
    let mut event = Event::Begin;
    loop {
        match pipe.step(flush, event) {
            Action::Write(start, end) => {
                assert!(end - start <= PIPE_BUF);
                text.extend_from_slice(&flush.bytes()[start..end]);
                event = Event::Wrote(end - start);
            }
            action => {
                assert_eq!(action, Action::Done);
                return String::from_utf8(text).unwrap();
            }
        }
    }
}

#[test]
fn an_update_that_lands_is_committed() {
    let state = GcState { b: true, ..Default::default() };
    let (mut pipe, mut flush) = open(&state);
    assert_eq!(land(&mut pipe, &mut flush), delta(None, &state));
    // Steady now.
    let mut again = pipe.update(&state).unwrap();
    assert!(again.bytes().is_empty());
    assert_eq!(land(&mut pipe, &mut again), "");
    let mut next = pipe.update(&GcState::default()).unwrap();
    assert_eq!(land(&mut pipe, &mut next), "RELEASE B\n");
    assert_eq!(pipe.dropped(), 0);
}

#[test]
fn a_reader_that_is_not_there_is_no_error() {
    let mut pipe = DolphinPipe::new();
    let state = GcState::default();
    assert!(pipe.update(&state).is_none());
    assert!(pipe.tried_open(false, &state).is_none());
    assert!(!pipe.is_connected());
    assert_eq!(pipe.dropped(), 0);
}

#[test]
fn a_dropped_update_is_sent_again() {
    let first = GcState::default();
    let (mut pipe, mut flush) = open(&first);
    land(&mut pipe, &mut flush);

    let pressed = GcState { a: true, ..Default::default() };
    let mut flush = pipe.update(&pressed).unwrap();
    assert_eq!(pipe.step(&mut flush, Event::Begin), Action::Write(0, 8));
    assert_eq!(pipe.step(&mut flush, Event::Full), Action::Done);
    assert_eq!(pipe.dropped(), 1);
    assert!(pipe.is_connected());

    let both_held = GcState { a: true, b: true, ..Default::default() };
    let mut flush = pipe.update(&both_held).unwrap();
    assert_eq!(land(&mut pipe, &mut flush), "PRESS A\nPRESS B\n");

    // A write that lands in part counts as dropped too.
    let mut flush = pipe.update(&pressed).unwrap();
    assert_eq!(pipe.step(&mut flush, Event::Begin), Action::Write(0, 10));
    assert_eq!(pipe.step(&mut flush, Event::Wrote(4)), Action::Done);
    assert_eq!(pipe.dropped(), 2);
    let mut flush = pipe.update(&pressed).unwrap();
    assert_eq!(land(&mut pipe, &mut flush), "RELEASE B\n");
}

#[test]
fn a_reader_that_quits_is_told_everything_when_it_returns() {
    let state = GcState { x: true, ..Default::default() };
    let (mut pipe, mut flush) = open(&state);
    land(&mut pipe, &mut flush);

    let mut flush = pipe.update(&GcState::default()).unwrap();
    pipe.step(&mut flush, Event::Begin);
    assert_eq!(pipe.step(&mut flush, Event::ReaderGone), Action::Close);
    assert!(!pipe.is_connected());

    assert!(pipe.update(&state).is_none());
    let mut flush = pipe.tried_open(true, &state).unwrap();
    assert_eq!(land(&mut pipe, &mut flush), delta(None, &state));
}

#[test]
fn another_failure_closes_the_pipe_and_is_reported() {
    let state = GcState::default();
    let (mut pipe, mut flush) = open(&state);
    pipe.step(&mut flush, Event::Begin);
    assert_eq!(pipe.step(&mut flush, Event::Failed), Action::CloseAndFail);
    assert!(!pipe.is_connected());
    assert_eq!(pipe.dropped(), 0);
    pipe.closed();
    assert!(!pipe.is_connected());
}

#[test]
fn long_text_is_cut_behind_a_newline() {
    let text = "SET MAIN 0.5000 0.5000\n".repeat(50).into_bytes();
    let mut start = 0;
    while start < text.len() {
        let end = chunk_end(&text, start).unwrap();
        assert!(start < end && end - start <= PIPE_BUF);
        assert_eq!(text[end - 1], b'\n');
        start = end;
    }
    assert_eq!(start, text.len());
    assert_eq!(chunk_end(&text, 0), Some(PIPE_BUF / 23 * 23));
    // A line that is too long is not torn.
    assert_eq!(chunk_end(&[b'x'; 2 * PIPE_BUF], 0), None);
    assert_eq!(chunk_end(&[b'x'; PIPE_BUF], 0), Some(PIPE_BUF));
}

#[test]
fn what_became_of_a_write_is_told_apart() {
    assert_eq!(after_write(Some(7), false, false), Event::Wrote(7));
    // A write that was taken is no failure, whatever the last one was.
    assert_eq!(after_write(Some(0), true, true), Event::Wrote(0));
    assert_eq!(after_write(None, true, false), Event::Full);
    assert_eq!(after_write(None, false, true), Event::ReaderGone);
    assert_eq!(after_write(None, false, false), Event::Failed);
}

#[test]
fn only_a_fifo_will_do() {
    assert_eq!(create(Found::Fifo), Creation::Keep);
    assert_eq!(create(Found::Nothing), Creation::Make);
    assert_eq!(create(Found::Other), Creation::Refuse);
    assert_eq!(create(Found::Unreadable), Creation::Fail);
    assert_eq!(PIPES_SUBDIR, "Library/Application Support/Dolphin/Pipes");
}
