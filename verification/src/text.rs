//! Text taken out of fixed-size byte fields, and questions about names.
use vstd::prelude::*;
use vstd::string::*;
use vstd::utf8::*;

pub mod laws;

verus! {

/// The text that `String::from_utf8_lossy` makes of some bytes.
pub uninterp spec fn utf8_lossy(bytes: Seq<u8>) -> Seq<char>;

/// `String::from_utf8_lossy`, made an owned `String`.
///
/// The result is a function of the bytes. Where they are valid UTF-8 it is the
/// text that they encode; what stands in for invalid bytes is left unsaid.
#[verifier::external_body]
fn from_utf8_lossy(bytes: &[u8]) -> (r: String)
    ensures
        r@ == utf8_lossy(bytes@),
        valid_utf8(bytes@) ==> r@ == decode_utf8(bytes@),
{
    String::from_utf8_lossy(bytes).into_owned()
}

/// The bytes ahead of the first zero byte, or all of them if there is none.
pub open spec fn until_nul(bytes: Seq<u8>) -> Seq<u8>
    decreases bytes.len(),
{
    if bytes.len() == 0 || bytes[0] == 0 {
        Seq::empty()
    } else {
        seq![bytes[0]] + until_nul(bytes.skip(1))
    }
}

/// Where the first zero byte stands decides what comes ahead of it.
pub proof fn lemma_until_nul(bytes: Seq<u8>, end: int)
    requires
        0 <= end <= bytes.len(),
        end < bytes.len() ==> bytes[end] == 0,
        forall|i: int| 0 <= i < end ==> bytes[i] != 0,
    ensures
        until_nul(bytes) == bytes.take(end),
    decreases end,
{
    if end > 0 {
        let rest = bytes.skip(1);
        assert forall|i: int| 0 <= i < end - 1 implies rest[i] != 0 by {
            assert(rest[i] == bytes[i + 1]);
        }
        lemma_until_nul(rest, end - 1);
        assert(seq![bytes[0]] + rest.take(end - 1) =~= bytes.take(end));
    } else {
        assert(bytes.take(0) =~= Seq::<u8>::empty());
    }
}

/// The text in a zero-terminated byte field: what the bytes ahead of the first
/// zero encode, or what is made of them where they are not valid UTF-8.
pub open spec fn field_text(bytes: Seq<u8>) -> Seq<char> {
    let ahead = until_nul(bytes);
    if valid_utf8(ahead) {
        decode_utf8(ahead)
    } else {
        utf8_lossy(ahead)
    }
}

/// The text in a zero-terminated byte field.
pub fn text_until_nul(bytes: &[u8]) -> (r: String)
    ensures
        r@ == field_text(bytes@),
{
    let mut end: usize = 0;
    while end < bytes.len() && bytes[end] != 0
        invariant
            end <= bytes@.len(),
            forall|i: int| 0 <= i < end ==> bytes@[i] != 0,
        decreases bytes@.len() - end,
    {
        end = end + 1;
    }
    let ahead = vstd::slice::slice_subrange(bytes, 0, end);
    proof {
        lemma_until_nul(bytes@, end as int);
        assert(ahead@ =~= bytes@.take(end as int));
    }
    from_utf8_lossy(ahead)
}

/// Whether a character has the Unicode property White_Space.
pub open spec fn is_white_space(c: char) -> bool {
    let u = c as u32;
    ||| 0x09 <= u <= 0x0d
    ||| u == 0x20
    ||| u == 0x85
    ||| u == 0xa0
    ||| u == 0x1680
    ||| 0x2000 <= u <= 0x200a
    ||| u == 0x2028
    ||| u == 0x2029
    ||| u == 0x202f
    ||| u == 0x205f
    ||| u == 0x3000
}

/// Whether a character has the Unicode property White_Space.
pub fn white_space(c: char) -> (r: bool)
    ensures
        r == is_white_space(c),
{
    let u: u32 = c as u32;
    (0x09 <= u && u <= 0x0d) || u == 0x20 || u == 0x85 || u == 0xa0 || u == 0x1680 || (0x2000 <= u
        && u <= 0x200a) || u == 0x2028 || u == 0x2029 || u == 0x202f || u == 0x205f || u == 0x3000
}

/// Text without the white space it starts with.
pub open spec fn trimmed_start(s: Seq<char>) -> Seq<char>
    decreases s.len(),
{
    if s.len() > 0 && is_white_space(s[0]) {
        trimmed_start(s.skip(1))
    } else {
        s
    }
}

/// Text without the white space it ends with.
pub open spec fn trimmed_end(s: Seq<char>) -> Seq<char>
    decreases s.len(),
{
    if s.len() > 0 && is_white_space(s.last()) {
        trimmed_end(s.drop_last())
    } else {
        s
    }
}

/// Text without the white space around it.
pub open spec fn trimmed(s: Seq<char>) -> Seq<char> {
    trimmed_end(trimmed_start(s))
}

/// Takes the white space around a text off.
pub fn trim(s: &str) -> (r: String)
    ensures
        r@ == trimmed(s@),
{
    let len = s.unicode_len();
    let mut start: usize = 0;
    assert(s@.skip(0) =~= s@);
    while start < len && white_space(s.get_char(start))
        invariant
            start <= len == s@.len(),
            trimmed_start(s@.skip(start as int)) == trimmed_start(s@),
        decreases len - start,
    {
        proof {
            assert(s@.skip(start as int).skip(1) =~= s@.skip(start + 1));
        }
        start = start + 1;
    }
    let ghost rest = s@.skip(start as int);
    assert(trimmed_start(s@) == rest);
    let mut end: usize = len;
    assert(s@.subrange(start as int, len as int) =~= rest);
    while end > start && white_space(s.get_char(end - 1))
        invariant
            start <= end <= len == s@.len(),
            trimmed_end(s@.subrange(start as int, end as int)) == trimmed_end(rest),
        decreases end,
    {
        proof {
            let kept = s@.subrange(start as int, end as int);
            assert(kept.drop_last() =~= s@.subrange(start as int, end - 1));
            assert(kept.last() == s@[end - 1]);
        }
        end = end - 1;
    }
    proof {
        let kept = s@.subrange(start as int, end as int);
        assert(kept.len() > 0 ==> kept.last() == s@[end - 1]);
        assert(trimmed_end(kept) == kept);
    }
    s.substring_char(start, end).to_owned()
}

/// Whether `part` stands in `s` from position `at` on.
pub open spec fn occurs_at(s: Seq<char>, part: Seq<char>, at: int) -> bool {
    0 <= at && at + part.len() <= s.len() && s.subrange(at, at + part.len()) == part
}

/// Whether `part` stands somewhere in `s`.
pub open spec fn occurs(s: Seq<char>, part: Seq<char>) -> bool {
    exists|at: int| occurs_at(s, part, at)
}

fn stands_at(s: &str, part: &str, at: usize) -> (r: bool)
    requires
        at + part@.len() <= s@.len(),
    ensures
        r == occurs_at(s@, part@, at as int),
{
    let len = part.unicode_len();
    let total = s.unicode_len();
    let mut i: usize = 0;
    let ghost there = s@.subrange(at as int, at + part@.len());
    while i < len
        invariant
            i <= len == part@.len(),
            at + len <= s@.len(),
            total == s@.len(),
            there == s@.subrange(at as int, at + part@.len()),
            forall|j: int| 0 <= j < i ==> there[j] == part@[j],
        decreases len - i,
    {
        let c = s.get_char(at + i);
        let d = part.get_char(i);
        if c != d {
            assert(there[i as int] != part@[i as int]);
            return false;
        }
        i = i + 1;
    }
    assert(there =~= part@);
    true
}

/// Whether `part` stands somewhere in `s`.
pub fn contains(s: &str, part: &str) -> (r: bool)
    ensures
        r == occurs(s@, part@),
{
    let len = s.unicode_len();
    let wanted = part.unicode_len();
    if wanted > len {
        return false;
    }
    let mut at: usize = 0;
    while at <= len - wanted
        invariant
            wanted == part@.len(),
            len == s@.len(),
            wanted <= len,
            at <= len - wanted + 1,
            forall|i: int| 0 <= i < at ==> !occurs_at(s@, part@, i),
        decreases len - wanted + 1 - at,
    {
        if stands_at(s, part, at) {
            return true;
        }
        if at == len - wanted {
            assert forall|i: int| !occurs_at(s@, part@, i) by {}
            return false;
        }
        at = at + 1;
    }
    false
}

} // verus!
