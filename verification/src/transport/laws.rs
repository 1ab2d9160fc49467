//! How the controller is found and heard, by the numbers and names that tell it apart.
use vstd::prelude::*;
use vstd::string::*;

use crate::protocol::command::answers;
use crate::protocol::report::decoded;
use crate::text::{field_text, occurs, occurs_at};
use crate::transport::ble;
use crate::transport::ble::{
    called, candidate, carried, heard, lemma_first_of, replies, resolved, scanned, Advert,
    Missing, Scan,
};
use crate::transport::ble_latency::{
    became, is_hooked, obstacle, params_text, Latency, Note, Scheduling,
};
use crate::transport::usb;
use crate::transport::usb::{
    bulk_endpoint, bulk_pair, drains_on, is_controller, is_first_controller, is_plugged_in, polled,
    takes_in, Endpoint, FlashReply, Poll,
};

verus! {

/// A read over the cable without bytes is idle. One that starts with a 5 and has 62 bytes
/// behind that is a report, with its body there; any other is not decoded, and is told by
/// its length.
pub proof fn law_a_wired_report_stands_behind_its_id(frame: Seq<u8>)
    requires
        frame.len() <= usize::MAX,
    ensures
        frame.len() == 0 ==> polled(frame) == Poll::Idle,
        frame.len() >= 63 && frame[0] == 5 ==> polled(frame) == Poll::Report(decoded(frame, 1)->0),
        0 < frame.len() < 63 || frame.len() > 0 && frame[0] != 5 ==> polled(frame) == Poll::Unknown(
            frame.len() as usize,
        ),
{
}

/// The controller is told by Nintendo's vendor ID and its own product ID, both of them.
pub proof fn law_the_controller_is_told_by_its_ids(vid: u16, pid: u16)
    ensures
        is_controller(Some((vid, pid))) <==> vid == 0x057E && pid == 0x2073,
        !is_controller(None),
{
}

/// The first controller on the bus is taken: where the device at `i` is one and none
/// before it is, that is it; and where none is, there is none.
pub proof fn law_the_first_controller_is_taken(
    devices: Seq<Option<(u16, u16)>>,
    i: usize,
    r: Option<usize>,
)
    requires
        is_first_controller(devices, r),
        i <= devices.len(),
        forall|j: int| 0 <= j < i ==> #[trigger] devices[j] != Some((0x057Eu16, 0x2073u16)),
    ensures
        i < devices.len() && devices[i as int] == Some((0x057Eu16, 0x2073u16)) ==> r == Some(i)
            && is_plugged_in(devices),
        i == devices.len() ==> r is None && !is_plugged_in(devices),
{
    if i < devices.len() && devices[i as int] == Some((0x057Eu16, 0x2073u16)) {
        assert(is_controller(devices[i as int]));
        if r is Some && r->0 < i {
            assert(devices[r->0 as int] != Some((0x057Eu16, 0x2073u16)));
        }
    }
}

/// The last bulk endpoint of interface 1 in a direction is the one that is used.
pub proof fn law_the_last_bulk_endpoint_is_used(endpoints: Seq<Endpoint>, incoming: bool, i: int)
    requires
        0 <= i < endpoints.len(),
        endpoints[i].interface == 1 && endpoints[i].bulk && endpoints[i].incoming == incoming,
        forall|j: int|
            i < j < endpoints.len() ==> {
                let e = #[trigger] endpoints[j];
                e.interface != 1 || !e.bulk || e.incoming != incoming
            },
    ensures
        bulk_endpoint(endpoints, incoming) == Some(endpoints[i].address),
    decreases endpoints.len(),
{
    if i < endpoints.len() - 1 {
        let rest = endpoints.drop_last();
        assert(endpoints.last() == endpoints[endpoints.len() - 1]);
        assert(rest[i] == endpoints[i]);
        assert forall|j: int| i < j < rest.len() implies {
            let e = #[trigger] rest[j];
            e.interface != 1 || !e.bulk || e.incoming != incoming
        } by {
            assert(rest[j] == endpoints[j]);
        }
        law_the_last_bulk_endpoint_is_used(rest, incoming, i);
    }
}

/// An endpoint of another interface, of another kind or in the other direction is never
/// used, and a pair takes one in each direction, the incoming one first.
pub proof fn law_no_other_endpoint_is_used(endpoints: Seq<Endpoint>, incoming: bool)
    ensures
        bulk_endpoint(endpoints, incoming) is Some ==> exists|i: int|
            {
                &&& 0 <= i < endpoints.len()
                &&& (#[trigger] endpoints[i]).interface == 1
                &&& endpoints[i].bulk
                &&& endpoints[i].incoming == incoming
            },
        bulk_pair(endpoints) is Some <==> bulk_endpoint(endpoints, true) is Some && bulk_endpoint(
            endpoints,
            false,
        ) is Some,
        bulk_pair(endpoints) matches Some((i, o)) ==> bulk_endpoint(endpoints, true) == Some(i)
            && bulk_endpoint(endpoints, false) == Some(o),
    decreases endpoints.len(),
{
    if endpoints.len() > 0 {
        let rest = endpoints.drop_last();
        law_no_other_endpoint_is_used(rest, incoming);
        if endpoints.last().carries(incoming) {
            assert(endpoints.last() == endpoints[endpoints.len() - 1]);
        } else if bulk_endpoint(rest, incoming) is Some {
            let i = choose|i: int|
                {
                    &&& 0 <= i < rest.len()
                    &&& (#[trigger] rest[i]).interface == 1
                    &&& rest[i].bulk
                    &&& rest[i].incoming == incoming
                };
            assert(endpoints[i] == rest[i]);
        }
    }
}

/// Stale packets are read until one comes empty, sixteen at most, and at least once.
pub proof fn law_draining_ends(reads: u32, got: usize)
    ensures
        reads == 0 ==> drains_on(reads, got),
        0 < reads < 16 ==> (drains_on(reads, got) <==> got > 0),
        reads >= 16 ==> !drains_on(reads, got),
{
}

/// A flash reply is eighty bytes, read in packets of up to 64: as long as it is not over,
/// a read asks for a whole packet if so much is missing, and else for what is missing.
/// What comes is put in order, and an empty packet ends the reply.
pub proof fn law_a_flash_reply_is_put_together(
    before: FlashReply,
    after: FlashReply,
    packet: Seq<u8>,
    i: int,
)
    requires
        takes_in(before, after, packet),
    ensures
        !before.is_over() && before.got().len() <= 16 ==> before.wants() == 64,
        !before.is_over() && 16 < before.got().len() <= 80 ==> before.wants() == 80
            - before.got().len(),
        before.is_over() ==> before.wants() == 0 && after.is_over(),
        after.got().len() == before.got().len() + packet.len(),
        0 <= i < before.got().len() ==> after.got()[i] == before.got()[i],
        0 <= i < packet.len() ==> after.got()[before.got().len() + i] == packet[i],
        packet.len() == 0 ==> after.is_over(),
        after.got().len() == 80 ==> after.is_over(),
        !before.is_over() && 0 < packet.len() && after.got().len() != 80 ==> !after.is_over(),
{
}

/// How long reads over the cable are waited for, in milliseconds.
pub proof fn law_reads_over_the_cable_are_waited_for()
    ensures
        usb::CMD_TIMEOUT_MS == 250,
        usb::DRAIN_TIMEOUT_MS == 20,
        usb::READ_TIMEOUT_MS == 1000,
{
}

/// How long things over the air are waited for, and what switches the protocol on.
pub proof fn law_things_over_the_air_are_waited_for()
    ensures
        ble::CMD_TIMEOUT_MS == 500,
        ble::CONNECT_TIMEOUT_SECS == 10,
        ble::SCAN_PAUSE_MS == 200,
        ble::STREAM_TIMEOUT_MS == 500,
        ble::SERVICE_ENABLE_VALUE@ == seq![1u8, 0u8],
{
    assert(ble::SERVICE_ENABLE_VALUE@ =~= seq![1u8, 0u8]);
}

/// Whether a characteristic stands at a place, and at none before it.
pub open spec fn stands_first(found: Seq<u128>, at: usize, id: u128) -> bool {
    &&& at < found.len()
    &&& found[at as int] == id
    &&& forall|j: int| 0 <= j < at ==> found[j] != id
}

/// Each characteristic is found by its own UUID, where it stands first. Input comes
/// before commands, and these before replies, in what is said to be missing; what
/// switches the protocol on may be missing.
pub proof fn law_characteristics_are_found_by_their_uuids(found: Seq<u128>)
    requires
        found.len() <= usize::MAX,
    ensures
        ({
            let input = found.contains(0xab7de9be_89fe_49ad_828f_118f09df7fd2);
            let command = found.contains(0x649d4ac9_8eb7_4e6c_af44_1ea54fe5f005);
            let response = found.contains(0xc765a961_d9d8_4d36_a20a_5315b111836a);
            match resolved(found) {
                Ok(c) => {
                    &&& stands_first(found, c.input, 0xab7de9be_89fe_49ad_828f_118f09df7fd2)
                    &&& stands_first(found, c.command, 0x649d4ac9_8eb7_4e6c_af44_1ea54fe5f005)
                    &&& stands_first(found, c.response, 0xc765a961_d9d8_4d36_a20a_5315b111836a)
                    &&& match c.enable {
                        Some(e) => stands_first(
                            found,
                            e,
                            0x00c5af5d_1964_4e30_8f51_1956f96bd282,
                        ),
                        None => !found.contains(0x00c5af5d_1964_4e30_8f51_1956f96bd282),
                    }
                },
                Err(Missing::Input) => !input,
                Err(Missing::Command) => input && !command,
                Err(Missing::Response) => input && command && !response,
            }
        }),
{
    lemma_first_of(found, 0xab7de9be_89fe_49ad_828f_118f09df7fd2);
    lemma_first_of(found, 0x649d4ac9_8eb7_4e6c_af44_1ea54fe5f005);
    lemma_first_of(found, 0xc765a961_d9d8_4d36_a20a_5315b111836a);
    lemma_first_of(found, 0x00c5af5d_1964_4e30_8f51_1956f96bd282);
}

/// What stands in a text is found there, wherever that is.
pub proof fn law_a_part_is_found_in_a_text(before: Seq<char>, part: Seq<char>, behind: Seq<char>)
    ensures
        occurs(before + part + behind, part),
{
    let all = before + part + behind;
    let at = before.len() as int;
    assert(all.subrange(at, at + part.len()) =~= part);
    assert(occurs_at(all, part, at));
}

/// A peripheral is taken for a controller by Nintendo's company identifier, or by one of
/// three words in its name, and by nothing else.
pub proof fn law_a_controller_is_told_by_its_advertisement(advert: Advert)
    ensures
        candidate(Some(advert)) <==> {
            ||| advert.companies@.contains(0x0553)
            ||| advert.name is Some && occurs(advert.name->0@, "GameCube"@)
            ||| advert.name is Some && occurs(advert.name->0@, "NSO"@)
            ||| advert.name is Some && occurs(advert.name->0@, "Nintendo"@)
        },
        !candidate(None),
{
}

/// A controller that advertises is taken, the first of them, however late it is and
/// whether or not the program is being stopped. Without one a scan ends when it is
/// stopped, or else when its seconds are over.
pub proof fn law_a_scan_ends_with_a_controller_or_its_time(
    adverts: Seq<Option<Advert>>,
    running: bool,
    elapsed_ns: u128,
    timeout_secs: u64,
    r: Scan,
    i: usize,
)
    requires
        scanned(adverts, running, elapsed_ns, timeout_secs, r),
        i <= adverts.len(),
        forall|j: int| 0 <= j < i ==> !candidate(#[trigger] adverts[j]),
    ensures
        i < adverts.len() && candidate(adverts[i as int]) ==> r == Scan::Found(i),
        i == adverts.len() && !running ==> r == Scan::Cancelled,
        i == adverts.len() && running && elapsed_ns >= timeout_secs * 1_000_000_000 ==> r
            == Scan::TimedOut,
        i == adverts.len() && running && elapsed_ns < timeout_secs * 1_000_000_000 ==> r
            == Scan::Wait,
{
}

/// A peripheral goes by its own name, and by the controller's where it has none.
pub proof fn law_a_peripheral_goes_by_its_name(local: Option<String>)
    ensures
        local matches Some(name) ==> called(local) == name@,
        local is None ==> called(local) == "NSO GameCube Controller"@,
{
}

/// A reply is one on the characteristic for replies, and a report one on that for input,
/// where its body starts with the first byte and has 62 of them. What comes on another
/// characteristic is nothing to the stream of input; what is too short is a report that
/// is not decoded.
pub proof fn law_notifications_are_told_by_their_characteristic(
    frame: Seq<u8>,
    channel: u128,
    uuid: u128,
    value: Seq<u8>,
)
    requires
        value.len() <= usize::MAX,
    ensures
        replies(frame, channel, uuid, value) <==> channel == uuid && answers(frame, value),
        channel != uuid ==> carried(channel, uuid, value) is None && heard(channel, uuid, value)
            == Poll::Idle,
        channel == uuid && value.len() >= 62 ==> {
            &&& carried(channel, uuid, value) == decoded(value, 0)
            &&& heard(channel, uuid, value) == Poll::Report(decoded(value, 0)->0)
        },
        channel == uuid && value.len() < 62 ==> {
            &&& carried(channel, uuid, value) is None
            &&& heard(channel, uuid, value) == Poll::Unknown(value.len() as usize)
        },
{
}

/// The classes are numbered from the fastest on.
pub proof fn law_faster_classes_have_lower_numbers()
    ensures
        0 == Latency::Low.code(),
        Latency::Low.code() + 1 == Latency::Medium.code(),
        Latency::Medium.code() + 1 == Latency::High.code(),
        Latency::High.code() + 1 == Latency::VeryHigh.code(),
        Latency::System.code() == -1,
{
}

/// Both of the first two hooks are needed, and no other matters.
pub proof fn law_both_central_hooks_are_needed(first: bool, second: bool, others: u32)
    requires
        others < 0x4000_0000,
    ensures
        is_hooked(
            (4 * others + if first {
                1int
            } else {
                0
            } + if second {
                2int
            } else {
                0
            }) as u32,
        ) <==> first && second,
{
}

/// Where a class was asked for and not taken as the system has it, what stands in its way
/// is told, first that it is not supported, then that it is not hooked. What became of it
/// is told by whether any call was accepted.
pub proof fn law_a_request_is_told_of(
    latency: Latency,
    supported: bool,
    hooked: bool,
    applied: i32,
    failed: i32,
)
    ensures
        latency == Latency::System ==> obstacle(latency, supported, hooked) is None && became(
            latency,
            applied,
            failed,
        ) == Scheduling::SystemDefault,
        latency != Latency::System ==> {
            &&& obstacle(latency, supported, hooked) == Some(Note::Unsupported) <==> !supported
            &&& obstacle(latency, supported, hooked) == Some(Note::Unhooked) <==> supported
                && !hooked
            &&& applied >= 1 ==> became(latency, applied, failed) == Scheduling::Requested(
                latency,
                applied,
            )
            &&& applied < 1 ==> became(latency, applied, failed) == Scheduling::Lost(failed)
        },
{
}

/// Parameters are shown exactly where there are some, as the text of their field.
pub proof fn law_parameters_are_shown_where_there_are_some(have: i32, field: Seq<u8>)
    ensures
        params_text(have, field) is None <==> have == 0,
        have != 0 ==> params_text(have, field) == Some(field_text(field)),
{
}

} // verus!
