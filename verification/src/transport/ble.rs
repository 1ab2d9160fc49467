//! Wireless transport over Bluetooth LE.
//!
//! The controller does not expose HID over GATT and it refuses standard SMP
//! pairing from a host with no IO capability. Instead it carries the same SW2
//! command frames over two custom services, so once the characteristics are
//! found the protocol is identical to USB apart from the interface byte.
//!
//! Channel choice is not obvious and matters: commands must go to the *shared*
//! command characteristic and replies come back on the *shared* response
//! characteristic. The per-controller "vibration + command" characteristic
//! accepts writes but answers with bare acks carrying no payload.
use std::str::FromStr;
use uuid::Uuid;
use vstd::prelude::*;
use vstd::string::*;

use crate::digits::{digit, digits};
use crate::protocol::command::{answers, response_matches};
use crate::protocol::report::{decode, decoded, BLE_BODY_OFFSET};
use crate::protocol::state::RawState;
use crate::text::{contains, occurs};
use crate::transport::usb::Poll;

pub mod uuids;

verus! {

/// Written to the service-enable characteristic to switch the proprietary
/// protocol on. Without it every later command is silently dropped.
pub const SERVICE_ENABLE_VALUE: [u8; 2] = [0x01, 0x00];

/// Per-command reply deadline, in milliseconds. A vibration ack can take over
/// 300 ms, so this is deliberately generous; replies are matched by cmd + subcmd
/// so a late one cannot be mistaken for the next command's.
pub const CMD_TIMEOUT_MS: u64 = 500;

/// Deadline for connecting and for service discovery, in seconds. Generous — a
/// cold controller is not quick — but finite, because neither call is
/// interruptible and an unbounded one wedges the process against Ctrl-C.
pub const CONNECT_TIMEOUT_SECS: u64 = 10;

/// The pause between two scan rounds, in milliseconds.
pub const SCAN_PAUSE_MS: u64 = 200;

/// How long a link may be silent before it is looked at, in milliseconds.
pub const STREAM_TIMEOUT_MS: u64 = 500;

/// Nintendo's Bluetooth SIG company identifier, as it appears in the
/// advertisement's manufacturer data. This is what actually identifies the
/// controller.
pub const NINTENDO_COMPANY_ID: u16 = 0x0553;

/// Nanoseconds in a second.
pub const SECOND: u128 = 1_000_000_000;

/// A UUID in its hyphenated form, in lower case: groups of 8, 4, 4, 4 and 12
/// hexadecimal digits.
pub open spec fn hyphenated(id: u128) -> Seq<char> {
    let n = id as int;
    digits(n / 0x1_0000_0000_0000_0000_0000_0000, 16, 8) + "-"@ + digits(
        n / 0x1_0000_0000_0000_0000_0000,
        16,
        4,
    ) + "-"@ + digits(n / 0x1_0000_0000_0000_0000, 16, 4) + "-"@ + digits(
        n / 0x1_0000_0000_0000,
        16,
        4,
    ) + "-"@ + digits(n, 16, 12)
}

/// The value of the UUID that `Uuid::from_str` finds in a text.
pub uninterp spec fn uuid_value(text: Seq<char>) -> Option<u128>;

/// `uuid::Uuid::from_str`, with the UUID as a number by `Uuid::as_u128`, and
/// any error as `None`.
///
/// The result is a function of the text. The hyphenated form of a UUID in lower
/// case is read as that UUID; the other forms that are understood, and what is
/// refused, are left unsaid.
#[verifier::external_body]
fn parse_uuid(text: &str) -> (r: Option<u128>)
    ensures
        r == uuid_value(text@),
        forall|id: u128| text@ == #[trigger] hyphenated(id) ==> r == Some(id),
{
    match Uuid::from_str(text) {
        Ok(id) => Some(id.as_u128()),
        Err(_) => None,
    }
}

/// The last four hexadecimal digits of a number.
spec fn four(n: int) -> Seq<char> {
    seq![
        digit(n / 16 / 16 / 16 % 16),
        digit(n / 16 / 16 % 16),
        digit(n / 16 % 16),
        digit(n % 16),
    ]
}

proof fn lemma_digits_4(n: int)
    ensures
        digits(n, 16, 4) == four(n),
{
    reveal_with_fuel(digits, 5);
    assert(digits(n, 16, 4) =~= four(n));
}

proof fn lemma_digits_8(n: int)
    ensures
        digits(n, 16, 8) == digits(n / 16 / 16 / 16 / 16, 16, 4) + digits(n, 16, 4),
{
    reveal_with_fuel(digits, 9);
    assert(digits(n, 16, 8) =~= digits(n / 16 / 16 / 16 / 16, 16, 4) + digits(n, 16, 4));
}

proof fn lemma_digits_12(n: int)
    ensures
        digits(n, 16, 12) == digits(n / 16 / 16 / 16 / 16, 16, 8) + digits(n, 16, 4),
{
    reveal_with_fuel(digits, 5);
    assert(digits(n, 16, 12) =~= digits(n / 16 / 16 / 16 / 16, 16, 8) + digits(n, 16, 4));
}

/// The hyphenated form by its eight groups of four digits.
proof fn lemma_hyphenated(
    id: u128,
    a: int,
    b: int,
    c: int,
    d: int,
    e: int,
    f: int,
    g: int,
    h: int,
)
    requires
        a == id as int / 0x1_0000_0000_0000_0000_0000_0000_0000,
        b == id as int / 0x1_0000_0000_0000_0000_0000_0000,
        c == id as int / 0x1_0000_0000_0000_0000_0000,
        d == id as int / 0x1_0000_0000_0000_0000,
        e == id as int / 0x1_0000_0000_0000,
        f == id as int / 0x1_0000_0000,
        g == id as int / 0x1_0000,
        h == id,
    ensures
        hyphenated(id) == four(a) + four(b) + "-"@ + four(c) + "-"@ + four(d) + "-"@ + four(e) + "-"@
            + four(f) + four(g) + four(h),
{
    lemma_digits_8(b);
    lemma_digits_12(h);
    lemma_digits_8(g);
    lemma_digits_4(a);
    lemma_digits_4(b);
    lemma_digits_4(c);
    lemma_digits_4(d);
    lemma_digits_4(e);
    lemma_digits_4(f);
    lemma_digits_4(g);
    lemma_digits_4(h);
    assert(b / 16 / 16 / 16 / 16 == a);
    assert(g / 16 / 16 / 16 / 16 == f);
    assert(h / 16 / 16 / 16 / 16 == g);
    assert(hyphenated(id) =~= four(a) + four(b) + "-"@ + four(c) + "-"@ + four(d) + "-"@ + four(e)
        + "-"@ + four(f) + four(g) + four(h));
}

proof fn lemma_service_enable()
    ensures
        uuids::SERVICE_ENABLE@ == hyphenated(uuids::SERVICE_ENABLE_ID),
{
    reveal_strlit("00c5af5d-1964-4e30-8f51-1956f96bd282");
    reveal_strlit("-");
    lemma_hyphenated(
        uuids::SERVICE_ENABLE_ID,
        0xc5,
        0xc5af5d,
        0xc5af5d1964,
        0xc5af5d19644e30,
        0xc5af5d19644e308f51,
        0xc5af5d19644e308f511956,
        0xc5af5d19644e308f511956f96b,
        0xc5af5d19644e308f511956f96bd282,
    );
    assert(uuids::SERVICE_ENABLE@ =~= hyphenated(uuids::SERVICE_ENABLE_ID));
}

proof fn lemma_input_report()
    ensures
        uuids::INPUT_REPORT@ == hyphenated(uuids::INPUT_REPORT_ID),
{
    reveal_strlit("ab7de9be-89fe-49ad-828f-118f09df7fd2");
    reveal_strlit("-");
    lemma_hyphenated(
        uuids::INPUT_REPORT_ID,
        0xab7d,
        0xab7de9be,
        0xab7de9be89fe,
        0xab7de9be89fe49ad,
        0xab7de9be89fe49ad828f,
        0xab7de9be89fe49ad828f118f,
        0xab7de9be89fe49ad828f118f09df,
        0xab7de9be89fe49ad828f118f09df7fd2,
    );
    assert(uuids::INPUT_REPORT@ =~= hyphenated(uuids::INPUT_REPORT_ID));
}

proof fn lemma_command_write()
    ensures
        uuids::COMMAND_WRITE@ == hyphenated(uuids::COMMAND_WRITE_ID),
{
    reveal_strlit("649d4ac9-8eb7-4e6c-af44-1ea54fe5f005");
    reveal_strlit("-");
    lemma_hyphenated(
        uuids::COMMAND_WRITE_ID,
        0x649d,
        0x649d4ac9,
        0x649d4ac98eb7,
        0x649d4ac98eb74e6c,
        0x649d4ac98eb74e6caf44,
        0x649d4ac98eb74e6caf441ea5,
        0x649d4ac98eb74e6caf441ea54fe5,
        0x649d4ac98eb74e6caf441ea54fe5f005,
    );
    assert(uuids::COMMAND_WRITE@ =~= hyphenated(uuids::COMMAND_WRITE_ID));
}

proof fn lemma_command_response()
    ensures
        uuids::COMMAND_RESPONSE@ == hyphenated(uuids::COMMAND_RESPONSE_ID),
{
    reveal_strlit("c765a961-d9d8-4d36-a20a-5315b111836a");
    reveal_strlit("-");
    lemma_hyphenated(
        uuids::COMMAND_RESPONSE_ID,
        0xc765,
        0xc765a961,
        0xc765a961d9d8,
        0xc765a961d9d84d36,
        0xc765a961d9d84d36a20a,
        0xc765a961d9d84d36a20a5315,
        0xc765a961d9d84d36a20a5315b111,
        0xc765a961d9d84d36a20a5315b111836a,
    );
    assert(uuids::COMMAND_RESPONSE@ =~= hyphenated(uuids::COMMAND_RESPONSE_ID));
}

/// Where a characteristic comes first among those of a peripheral.
pub open spec fn first_of(found: Seq<u128>, id: u128) -> Option<int>
    decreases found.len(),
{
    if found.len() == 0 {
        None
    } else {
        match first_of(found.drop_last(), id) {
            Some(i) => Some(i),
            None => if found.last() == id {
                Some(found.len() - 1)
            } else {
                None
            },
        }
    }
}

/// Where a characteristic comes first among those of a peripheral. `None` for
/// one without a known UUID.
pub fn find(found: &[u128], want: Option<u128>) -> (r: Option<usize>)
    ensures
        match want {
            Some(id) => match first_of(found@, id) {
                Some(i) => r == Some(i as usize) && i < found@.len(),
                None => r is None,
            },
            None => r is None,
        },
{
    let id = match want {
        Some(id) => id,
        None => return None,
    };
    let mut at: Option<usize> = None;
    for i in 0..found.len()
        invariant
            match first_of(found@.take(i as int), id) {
                Some(k) => at == Some(k as usize) && 0 <= k < i,
                None => at is None,
            },
    {
        if at.is_none() && found[i] == id {
            at = Some(i);
        }
        assert(found@.take(i + 1).drop_last() =~= found@.take(i as int));
    }
    assert(found@.take(found@.len() as int) =~= found@);
    at
}

/// Where a peripheral's characteristics are that the protocol uses.
#[derive(Clone, Copy, Debug, PartialEq, Eq)]
pub struct Channels {
    pub input: usize,
    pub command: usize,
    pub response: usize,
    pub enable: Option<usize>,
}

/// A characteristic that the protocol cannot do without.
#[derive(Clone, Copy, Debug, PartialEq, Eq, Structural)]
pub enum Missing {
    Input,
    Command,
    Response,
}

/// An index, as a machine number.
pub open spec fn index(i: Option<int>) -> Option<usize> {
    match i {
        Some(i) => Some(i as usize),
        None => None,
    }
}

/// What a peripheral's characteristics are to the protocol.
pub open spec fn resolved(found: Seq<u128>) -> Result<Channels, Missing> {
    let input = index(first_of(found, uuids::INPUT_REPORT_ID));
    let command = index(first_of(found, uuids::COMMAND_WRITE_ID));
    let response = index(first_of(found, uuids::COMMAND_RESPONSE_ID));
    let enable = index(first_of(found, uuids::SERVICE_ENABLE_ID));
    match (input, command, response) {
        (None, _, _) => Err(Missing::Input),
        (_, None, _) => Err(Missing::Command),
        (_, _, None) => Err(Missing::Response),
        (Some(input), Some(command), Some(response)) => Ok(
            Channels { input, command, response, enable },
        ),
    }
}

/// Resolves a peripheral's characteristics, given by their UUIDs.
pub fn resolve(found: &[u128]) -> (r: Result<Channels, Missing>)
    ensures
        r == resolved(found@),
{
    proof {
        lemma_input_report();
        lemma_command_write();
        lemma_command_response();
        lemma_service_enable();
    }
    let input = match find(found, parse_uuid(uuids::INPUT_REPORT)) {
        Some(i) => i,
        None => return Err(Missing::Input),
    };
    let command = match find(found, parse_uuid(uuids::COMMAND_WRITE)) {
        Some(i) => i,
        None => return Err(Missing::Command),
    };
    let response = match find(found, parse_uuid(uuids::COMMAND_RESPONSE)) {
        Some(i) => i,
        None => return Err(Missing::Response),
    };
    let enable = find(found, parse_uuid(uuids::SERVICE_ENABLE));
    Ok(Channels { input, command, response, enable })
}

/// What a peripheral advertises.
#[derive(Debug)]
pub struct Advert {
    /// The company identifiers in its manufacturer data.
    pub companies: Vec<u16>,
    /// Its local name, if it has one.
    pub name: Option<String>,
}

/// Names the controller may advertise itself under. Only a fallback: in sync
/// mode it advertises unnamed.
pub open spec fn hinted(name: Seq<char>) -> bool {
    occurs(name, "GameCube"@) || occurs(name, "NSO"@) || occurs(name, "Nintendo"@)
}

/// Whether a peripheral looks like a controller: it has the company identifier,
/// or a name that gives it away.
pub open spec fn looks_right(advert: Advert) -> bool {
    ||| advert.companies@.contains(NINTENDO_COMPANY_ID)
    ||| advert.name matches Some(name) && hinted(name@)
}

/// Whether a peripheral looks like a Switch 2 controller.
///
/// The manufacturer ID is the reliable signal. In sync mode the controller
/// advertises with **no local name at all** on macOS, so a name-only filter
/// never matches it. The name is a fallback: a controller already known to macOS
/// can come back with a name and no manufacturer data.
pub fn looks_like_controller(advert: &Advert) -> (r: bool)
    ensures
        r == looks_right(*advert),
{
    for i in 0..advert.companies.len()
        invariant
            forall|j: int| 0 <= j < i ==> advert.companies@[j] != NINTENDO_COMPANY_ID,
    {
        if advert.companies[i] == NINTENDO_COMPANY_ID {
            assert(advert.companies@.contains(NINTENDO_COMPANY_ID));
            return true;
        }
    }
    match &advert.name {
        Some(name) => {
            let name = name.as_str();
            contains(name, "GameCube") || contains(name, "NSO") || contains(name, "Nintendo")
        },
        None => false,
    }
}

/// Whether there is something known of a peripheral, and it looks right.
pub open spec fn candidate(advert: Option<Advert>) -> bool {
    advert matches Some(advert) && looks_right(advert)
}

/// Whether `r` is where the first peripheral stands that looks right.
pub open spec fn is_first_candidate(adverts: Seq<Option<Advert>>, r: Option<usize>) -> bool {
    match r {
        Some(i) => {
            &&& i < adverts.len()
            &&& candidate(adverts[i as int])
            &&& forall|j: int| 0 <= j < i ==> !candidate(#[trigger] adverts[j])
        },
        None => forall|j: int| 0 <= j < adverts.len() ==> !candidate(#[trigger] adverts[j]),
    }
}

/// Picks the first advertising peripheral that looks like a Switch 2
/// controller. One whose properties could not be read is passed over.
pub fn find_controller(adverts: &[Option<Advert>]) -> (r: Option<usize>)
    ensures
        is_first_candidate(adverts@, r),
{
    for i in 0..adverts.len()
        invariant
            forall|j: int| 0 <= j < i ==> !candidate(#[trigger] adverts@[j]),
    {
        if let Some(advert) = &adverts[i] {
            if looks_like_controller(advert) {
                return Some(i);
            }
        }
    }
    None
}

/// How a scan round came out.
#[derive(Clone, Copy, Debug, PartialEq, Eq, Structural)]
pub enum Scan {
    /// A controller advertises.
    Found(usize),
    /// The program is being stopped.
    Cancelled,
    /// No controller in all the time that there was.
    TimedOut,
    /// Pause, then look again.
    Wait,
}

/// How a scan goes on: with the first controller that has appeared, whatever the time;
/// and without one it ends when the program is stopped or the time is over.
pub open spec fn scanned(
    adverts: Seq<Option<Advert>>,
    running: bool,
    elapsed_ns: u128,
    timeout_secs: u64,
    r: Scan,
) -> bool {
    match r {
        Scan::Found(i) => is_first_candidate(adverts, Some(i)),
        _ => {
            &&& is_first_candidate(adverts, None)
            &&& r == if !running {
                Scan::Cancelled
            } else if elapsed_ns >= timeout_secs * SECOND {
                Scan::TimedOut
            } else {
                Scan::Wait
            }
        },
    }
}

/// Decides how a scan goes on. A controller that has appeared is taken, even if
/// it is late; `running` is looked at in each round so a signal lands promptly.
pub fn scan_round(
    adverts: &[Option<Advert>],
    running: bool,
    elapsed_ns: u128,
    timeout_secs: u64,
) -> (r: Scan)
    ensures
        scanned(adverts@, running, elapsed_ns, timeout_secs, r),
{
    if let Some(i) = find_controller(adverts) {
        return Scan::Found(i);
    }
    if !running {
        return Scan::Cancelled;
    }
    if elapsed_ns >= timeout_secs as u128 * SECOND {
        return Scan::TimedOut;
    }
    Scan::Wait
}

/// What a peripheral without a name is called.
pub const DEFAULT_NAME: &'static str = "NSO GameCube Controller";

/// What a peripheral is called: by its name, where it has one.
pub open spec fn called(local: Option<String>) -> Seq<char> {
    match local {
        Some(name) => name@,
        None => DEFAULT_NAME@,
    }
}

/// The peripheral's advertised name, for logging.
pub fn display_name(local: Option<String>) -> (r: String)
    ensures
        r@ == called(local),
{
    match local {
        Some(name) => name,
        None => DEFAULT_NAME.to_string(),
    }
}

/// Whether a notification is the reply to a command.
pub open spec fn replies(frame: Seq<u8>, response: u128, uuid: u128, value: Seq<u8>) -> bool {
    uuid == response && answers(frame, value)
}

/// The input report in a notification.
pub open spec fn carried(input: u128, uuid: u128, value: Seq<u8>) -> Option<RawState> {
    if uuid == input {
        decoded(value, BLE_BODY_OFFSET as int)
    } else {
        None
    }
}

/// What a notification is to the stream of input.
pub open spec fn heard(input: u128, uuid: u128, value: Seq<u8>) -> Poll {
    if uuid != input {
        Poll::Idle
    } else {
        match decoded(value, BLE_BODY_OFFSET as int) {
            Some(state) => Poll::Report(state),
            None => Poll::Unknown(value.len() as usize),
        }
    }
}

/// Whether a notification is the reply to a command: it comes on the response
/// characteristic and has the command's cmd + subcmd.
pub fn is_reply(frame: &[u8], response: u128, uuid: u128, value: &[u8]) -> (r: bool)
    ensures
        r == replies(frame@, response, uuid, value@),
{
    uuid == response && response_matches(frame, value)
}

/// The input report in a notification, or `None` for one that comes on another
/// characteristic or is too short.
pub fn input_report(input: u128, uuid: u128, value: &[u8]) -> (r: Option<RawState>)
    ensures
        r == carried(input, uuid, value@),
{
    if uuid != input {
        return None;
    }
    decode(value, BLE_BODY_OFFSET)
}

/// What a notification is to the stream of input: nothing on another
/// characteristic, and otherwise a report, be it one that we do not decode.
pub fn notification(input: u128, uuid: u128, value: &[u8]) -> (r: Poll)
    ensures
        r == heard(input, uuid, value@),
{
    if uuid != input {
        return Poll::Idle;
    }
    match input_report(input, uuid, value) {
        Some(state) => Poll::Report(state),
        None => Poll::Unknown(value.len()),
    }
}

/// A peripheral is usable exactly where it has the three characteristics that
/// the protocol cannot do without; each is then where it stands first.
pub proof fn law_three_characteristics_suffice(found: Seq<u128>)
    ensures
        resolved(found) is Ok <==> found.contains(uuids::INPUT_REPORT_ID) && found.contains(
            uuids::COMMAND_WRITE_ID,
        ) && found.contains(uuids::COMMAND_RESPONSE_ID),
        found.len() <= usize::MAX ==> (resolved(found) matches Ok(c) ==> {
            &&& found[c.input as int] == uuids::INPUT_REPORT_ID
            &&& found[c.command as int] == uuids::COMMAND_WRITE_ID
            &&& found[c.response as int] == uuids::COMMAND_RESPONSE_ID
        }),
{
    lemma_first_of(found, uuids::INPUT_REPORT_ID);
    lemma_first_of(found, uuids::COMMAND_WRITE_ID);
    lemma_first_of(found, uuids::COMMAND_RESPONSE_ID);
}

/// A characteristic is found where it stands first, if it is there at all.
pub proof fn lemma_first_of(found: Seq<u128>, id: u128)
    ensures
        first_of(found, id) is Some == found.contains(id),
        first_of(found, id) matches Some(i) ==> {
            &&& 0 <= i < found.len()
            &&& found[i] == id
            &&& forall|j: int| 0 <= j < i ==> found[j] != id
        },
    decreases found.len(),
{
    if found.len() > 0 {
        let rest = found.drop_last();
        lemma_first_of(rest, id);
        if found.contains(id) && first_of(rest, id) is None {
            let k = choose|k: int| 0 <= k < found.len() && found[k] == id;
            assert(k == found.len() - 1) by {
                if k < found.len() - 1 {
                    assert(rest[k] == id);
                }
            }
        }
        if first_of(found, id) is Some {
            let i = first_of(found, id)->0;
            assert forall|j: int| 0 <= j < i implies found[j] != id by {
                assert(rest[j] == found[j]);
                if found[j] == id {
                    assert(rest.contains(id));
                }
            }
        }
    }
}

/// A controller in sync mode is recognised although it has no name.
pub proof fn law_a_nameless_controller_is_recognised(advert: Advert)
    requires
        advert.companies@.contains(NINTENDO_COMPANY_ID),
    ensures
        candidate(Some(advert)),
{
}

} // verus!
