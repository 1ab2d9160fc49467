//! What each flash block tells, down to its bytes.
use vstd::prelude::*;
use vstd::utf8::*;

use crate::protocol::calibration::{absorbs, stick_cal, text_of, Calibration, StickCal};
use crate::protocol::report::{first_12, second_12};
use crate::text::laws::law_trimming_takes_off_what_surrounds;
use crate::text::{field_text, is_white_space, lemma_until_nul};

verus! {

/// Whether three bytes hold two 12-bit numbers: the first in the first byte and the
/// low half of the second, the other in the high half and the third byte.
pub open spec fn hold(d: Seq<u8>, at: int, first: u16, second: u16) -> bool {
    &&& first as int % 256 == d[at]
    &&& first as int / 256 == d[at + 1] as int % 16
    &&& second as int % 16 == d[at + 1] as int / 16
    &&& second as int / 16 == d[at + 2]
}

/// Whether nine bytes hold a stick's calibration: where its axes are centred, how
/// far they go up from there, and how far down.
pub open spec fn hold_stick(d: Seq<u8>, at: int, stick: StickCal) -> bool {
    &&& hold(d, at, stick.x.neutral, stick.y.neutral)
    &&& hold(d, at + 3, stick.x.max, stick.y.max)
    &&& hold(d, at + 6, stick.x.min, stick.y.min)
}

/// Whether a block was written by the user.
pub open spec fn marked(block: Seq<u8>) -> bool {
    block.len() >= 11 && block[0] == 0xB2 && block[1] == 0xA1
}

/// Each block tells of one part of the calibration and leaves the others: the
/// factory's blocks of a stick, 40 bytes in; the user's, behind its mark and only
/// with it; and the two trigger zero points, left before right.
pub proof fn law_each_block_tells_of_one_part(
    before: Calibration,
    after: Calibration,
    address: u32,
    block: Seq<u8>,
)
    requires
        absorbs(before, after, address, block),
    ensures
        if address == 0x1_3080 && block.len() >= 0x31 {
            hold_stick(block, 0x28, after.left)
        } else if address == 0x1F_C040 && marked(block) {
            hold_stick(block, 2, after.left)
        } else {
            after.left == before.left
        },
        if address == 0x1_30C0 && block.len() >= 0x31 {
            hold_stick(block, 0x28, after.right)
        } else if address == 0x1F_C080 && marked(block) {
            hold_stick(block, 2, after.right)
        } else {
            after.right == before.right
        },
        if address == 0x1_3140 && block.len() >= 2 {
            after.trigger_l_zero == block[0] && after.trigger_r_zero == block[1]
        } else {
            after.trigger_l_zero == before.trigger_l_zero && after.trigger_r_zero
                == before.trigger_r_zero
        },
        address != 0x1_3000 || block.len() < 0x13 ==> text_of(after.serial) == text_of(
            before.serial,
        ),
        after.invert_left_y == before.invert_left_y,
        after.invert_right_y == before.invert_right_y,
        after.trigger_deadzone == before.trigger_deadzone,
{
    law_nine_bytes_hold_a_stick(block, 0x28);
    law_nine_bytes_hold_a_stick(block, 2);
}

proof fn lemma_hold(b0: u8, b1: u8, b2: u8, d: Seq<u8>, at: int)
    requires
        0 <= at,
        at + 3 <= d.len(),
        b0 == d[at],
        b1 == d[at + 1],
        b2 == d[at + 2],
    ensures
        hold(d, at, first_12(b0, b1) as u16, second_12(b1, b2) as u16),
{
}

/// Nine bytes hold a stick's calibration, and fewer hold none.
pub proof fn law_nine_bytes_hold_a_stick(d: Seq<u8>, at: int)
    requires
        0 <= at,
    ensures
        at <= d.len() ==> (stick_cal(d.skip(at)) is Some <==> d.len() >= at + 9),
        d.len() >= at + 9 ==> hold_stick(d, at, stick_cal(d.skip(at))->0),
{
    if d.len() >= at + 9 {
        let e = d.skip(at);
        assert(e[0] == d[at] && e[1] == d[at + 1] && e[2] == d[at + 2]);
        assert(e[3] == d[at + 3] && e[4] == d[at + 4] && e[5] == d[at + 5]);
        assert(e[6] == d[at + 6] && e[7] == d[at + 7] && e[8] == d[at + 8]);
        lemma_hold(e[0], e[1], e[2], d, at);
        lemma_hold(e[3], e[4], e[5], d, at + 3);
        lemma_hold(e[6], e[7], e[8], d, at + 6);
    }
}

/// A string that is there holds its text.
pub proof fn law_a_string_holds_its_text(s: Option<String>)
    ensures
        s is None <==> text_of(s) is None,
        s matches Some(s) ==> text_of(Some(s)) == Some(s@),
{
}

/// The serial number is the text in the seventeen bytes behind the first two of its
/// block, up to a zero byte if there is one, without the spaces around it. A field
/// without text leaves the serial number that there was.
pub proof fn law_the_serial_is_the_text_in_its_block(
    before: Calibration,
    after: Calibration,
    block: Seq<u8>,
    ahead: Seq<char>,
    text: Seq<char>,
    behind: Seq<char>,
    n: int,
)
    requires
        absorbs(before, after, 0x1_3000, block),
        block.len() >= 0x13,
        0 <= n <= 17,
        n < 17 ==> block[2 + n] == 0,
        forall|i: int| 2 <= i < 2 + n ==> block[i] != 0,
        block.subrange(2, 2 + n) == encode_utf8(ahead + text + behind),
        forall|i: int| 0 <= i < ahead.len() ==> ahead[i] == ' ',
        forall|i: int| 0 <= i < behind.len() ==> behind[i] == ' ',
        text.len() > 0 ==> '!' <= text[0] <= '~' && '!' <= text.last() <= '~',
    ensures
        text.len() > 0 ==> text_of(after.serial) == Some(text),
        text.len() == 0 ==> text_of(after.serial) == text_of(before.serial),
{
    let field = block.subrange(2, 0x13);
    let all = ahead + text + behind;
    assert forall|i: int| 0 <= i < n implies field[i] != 0 by {
        assert(field[i] == block[2 + i]);
    }
    lemma_until_nul(field, n);
    assert(field.take(n) =~= block.subrange(2, 2 + n));
    encode_utf8_valid_utf8(all);
    encode_utf8_decode_utf8(all);
    assert(field_text(field) == all);
    let (a, b) = (ahead.len() as int, (ahead.len() + text.len()) as int);
    assert forall|i: int| 0 <= i < a || b <= i < all.len() implies is_white_space(
        #[trigger] all[i],
    ) by {
        if i >= b {
            assert(all[i] == behind[i - b]);
        } else {
            assert(all[i] == ahead[i]);
        }
    }
    if a < b {
        assert(all[a] == text[0]);
        assert(all[b - 1] == text.last());
    }
    law_trimming_takes_off_what_surrounds(all, a, b);
    assert(all.subrange(a, b) =~= text);
}

} // verus!
