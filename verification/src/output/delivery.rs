//! How an update reaches Dolphin, from opening the pipe to the last byte of it, held to
//! what became of each write.
use vstd::prelude::*;
use vstd::utf8::*;

use crate::output::pipe::{
    attaches, carries_on, creation, delta, event_of, last_newline, lemma_last_newline,
    offers, owned, write_end, Action, Creation, DolphinPipe, Event, Flush, Found, CONTROLS,
    PIPES_SUBDIR,
};
use crate::protocol::state::GcState;

verus! {

/// A FIFO is used as it is, one that is missing is made, and anything else in its place is
/// left alone and refused. It stands where Dolphin looks for it.
pub proof fn law_only_a_fifo_is_written_to(found: Found)
    ensures
        creation(found) == Creation::Keep <==> found == Found::Fifo,
        creation(found) == Creation::Make <==> found == Found::Nothing,
        creation(found) == Creation::Refuse <==> found == Found::Other,
        creation(found) == Creation::Fail <==> found == Found::Unreadable,
        PIPES_SUBDIR@ == "Library/Application Support/Dolphin/Pipes"@,
{
}

/// A write that took bytes is one that did so, whatever else is said of it. One that
/// failed is told apart by whether the pipe was full, and else by whether the reader is
/// gone.
pub proof fn law_failed_writes_are_told_apart(taken: Option<usize>, full: bool, broken: bool)
    ensures
        taken matches Some(n) ==> event_of(taken, full, broken) == Event::Wrote(n),
        taken is None ==> {
            &&& event_of(taken, full, broken) == Event::Full <==> full
            &&& event_of(taken, full, broken) == Event::ReaderGone <==> !full && broken
            &&& event_of(taken, full, broken) == Event::Failed <==> !full && !broken
        },
{
}

/// An update is encoded against the state that is given, and against none where none is.
pub proof fn law_an_update_is_encoded_against_what_is_given(state: GcState)
    ensures
        owned(Some(&state)) == Some(state),
        owned(None) is None,
{
}

/// What fits in 512 bytes is written at once. Of what does not, the lines are written that
/// do: up to the last newline among the next 512 bytes, and nothing where there is none.
pub proof fn law_writes_are_as_long_as_they_may_be(text: Seq<u8>, start: int, at: int)
    requires
        0 <= start <= text.len(),
    ensures
        text.len() <= start + 512 ==> write_end(text, start) == Some(text.len() as int),
        text.len() > start + 512 && start <= at < start + 512 && text[at] == 10 && (forall|j: int|
            at < j < start + 512 ==> text[j] != 10) ==> write_end(text, start) == Some(at + 1),
        text.len() > start + 512 && (forall|j: int| start <= j < start + 512 ==> text[j] != 10)
            ==> write_end(text, start) is None,
{
    if text.len() > start + 512 {
        lemma_last_newline(text, start, start + 512);
        let all = last_newline(text, start, start + 512);
        if start <= at < start + 512 && text[at] == 10 && (forall|j: int|
            at < j < start + 512 ==> text[j] != 10) {
            assert(all is Some);
            lemma_last_is_last(text, start, start + 512, at);
        }
    }
}

proof fn lemma_last_is_last(text: Seq<u8>, low: int, high: int, at: int)
    requires
        low <= at < high,
        text[at] == 10,
        forall|j: int| at < j < high ==> text[j] != 10,
    ensures
        last_newline(text, low, high) == Some(at),
    decreases high - low,
{
    if at < high - 1 {
        assert(text[high - 1] != 10);
        lemma_last_is_last(text, low, high - 1, at);
    }
}

/// Where the pipe is open, an update is what moves Dolphin from the state that it has
/// received, and where it is not, there is none. A reader that has just come is sent all
/// there is; one that is not there changes nothing.
pub proof fn law_an_update_starts_from_what_dolphin_has(
    before: DolphinPipe,
    after: DolphinPipe,
    opened: bool,
    state: GcState,
    known: Option<Flush>,
    fresh: Option<Flush>,
)
    requires
        offers(before, state, known),
        attaches(before, after, opened, state, fresh),
    ensures
        known is Some <==> before.connected(),
        known matches Some(flush) ==> {
            &&& flush.bytes_view() == encode_utf8(
                delta(before.received(), state, CONTROLS as int),
            )
            &&& flush.landed() == 0 && flush.pending_end() == 0
            &&& flush.target() == state
        },
        fresh is Some <==> opened,
        fresh matches Some(flush) ==> {
            &&& flush.bytes_view() == encode_utf8(delta(None, state, CONTROLS as int))
            &&& flush.landed() == 0 && flush.pending_end() == 0
            &&& flush.target() == state
            &&& after.connected()
            &&& after.received() is None
            &&& after.drops() == before.drops()
        },
        !opened ==> after == before,
{
}

/// What became of a write decides what is done next. A full pipe, and a write that took
/// fewer bytes than were offered, lose the update and nothing more: it counts as dropped,
/// and Dolphin is taken to have what it had. A reader that is gone closes the pipe, and
/// so does any other failure, which is reported besides.
pub proof fn law_what_became_of_a_write_decides(
    before: DolphinPipe,
    after: DolphinPipe,
    from: Flush,
    to: Flush,
    event: Event,
    action: Action,
)
    requires
        carries_on(before, after, from, to, event, action),
    ensures
        event == Event::Full || (event matches Event::Wrote(n) && n != from.pending_end()
            - from.landed()) ==> {
            &&& action == Action::Done
            &&& after.received() == before.received()
            &&& after.connected() == before.connected()
            &&& before.drops() < u64::MAX ==> after.drops() == before.drops() + 1
            &&& before.drops() == u64::MAX ==> after.drops() == before.drops()
        },
        event == Event::ReaderGone ==> action == Action::Close,
        event == Event::Failed ==> action == Action::CloseAndFail,
        event == Event::ReaderGone || event == Event::Failed ==> {
            &&& !after.connected()
            &&& after.received() is None
            &&& after.drops() == before.drops()
        },
        to.bytes_view() == from.bytes_view(),
        to.target() == from.target(),
{
}

/// An update without bytes is over at once and changes nothing. Otherwise what has not
/// landed is written, from where the last write ended, as far as one write goes; and only
/// when all of it has landed is the state taken to be the one that Dolphin has.
pub proof fn law_a_state_is_received_when_all_of_it_landed(
    before: DolphinPipe,
    after: DolphinPipe,
    from: Flush,
    to: Flush,
    event: Event,
    action: Action,
    landed: int,
)
    requires
        carries_on(before, after, from, to, event, action),
        0 <= landed,
        event == Event::Begin && landed == from.landed() || (event matches Event::Wrote(n) && n
            == from.pending_end() - from.landed() && landed == from.pending_end()),
    ensures
        after.connected() == before.connected(),
        after.drops() == before.drops(),
        to.landed() == landed,
        event == Event::Begin && from.bytes_view().len() == 0 ==> action == Action::Done
            && after.received() == before.received(),
        landed < from.bytes_view().len() ==> {
            &&& after.received() == before.received()
            &&& write_end(from.bytes_view(), landed) matches Some(end) ==> action == Action::Write(
                landed as usize,
                end as usize,
            ) && to.pending_end() == end
            &&& write_end(from.bytes_view(), landed) is None ==> action == Action::Done
        },
        landed >= from.bytes_view().len() && !(event == Event::Begin && from.bytes_view().len()
            == 0) ==> action == Action::Done && after.received() == Some(from.target()),
{
}

} // verus!
