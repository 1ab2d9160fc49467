//! What is taken off a text, and what is taken for a space.
use vstd::prelude::*;

use crate::text::{is_white_space, trimmed, trimmed_start};

verus! {

/// White space is the space and what moves on like it: the controls from tab to carriage
/// return, the next line, the spaces that do not break, the spaces of other widths and
/// scripts, and the ends of lines and paragraphs.
pub proof fn law_white_space_is_what_moves_on(c: char)
    ensures
        is_white_space(c) <==> seq![
            '\u{9}', '\u{a}', '\u{b}', '\u{c}', '\u{d}', ' ', '\u{85}', '\u{a0}', '\u{1680}',
            '\u{2000}', '\u{2001}', '\u{2002}', '\u{2003}', '\u{2004}', '\u{2005}', '\u{2006}',
            '\u{2007}', '\u{2008}', '\u{2009}', '\u{200a}', '\u{2028}', '\u{2029}', '\u{202f}',
            '\u{205f}', '\u{3000}',
        ].contains(c),
{
    let all = seq![
        '\u{9}', '\u{a}', '\u{b}', '\u{c}', '\u{d}', ' ', '\u{85}', '\u{a0}', '\u{1680}',
        '\u{2000}', '\u{2001}', '\u{2002}', '\u{2003}', '\u{2004}', '\u{2005}', '\u{2006}',
        '\u{2007}', '\u{2008}', '\u{2009}', '\u{200a}', '\u{2028}', '\u{2029}', '\u{202f}',
        '\u{205f}', '\u{3000}',
    ];
    if is_white_space(c) {
        let i = if c <= '\u{d}' {
            c as int - 9
        } else if c == ' ' {
            5
        } else if c == '\u{85}' {
            6
        } else if c == '\u{a0}' {
            7
        } else if c == '\u{1680}' {
            8
        } else if c <= '\u{200a}' {
            c as int - 0x2000 + 9
        } else if c == '\u{2028}' {
            20
        } else if c == '\u{2029}' {
            21
        } else if c == '\u{202f}' {
            22
        } else if c == '\u{205f}' {
            23
        } else {
            24
        };
        assert(all[i] == c);
    }
}

/// Trimming takes off the white space that surrounds a text, and nothing of what stands
/// between its first and its last other character.
pub proof fn law_trimming_takes_off_what_surrounds(s: Seq<char>, a: int, b: int)
    requires
        0 <= a <= b <= s.len(),
        forall|i: int| 0 <= i < a || b <= i < s.len() ==> is_white_space(#[trigger] s[i]),
        a < b ==> !is_white_space(s[a]) && !is_white_space(s[b - 1]),
    ensures
        trimmed(s) == s.subrange(a, b),
    decreases s.len(),
{
    if a > 0 {
        let t = s.skip(1);
        law_trimming_takes_off_what_surrounds(t, a - 1, b - 1);
        assert(trimmed_start(s) == trimmed_start(t));
        assert(t.subrange(a - 1, b - 1) =~= s.subrange(a, b));
    } else if b < s.len() {
        let t = s.drop_last();
        law_trimming_takes_off_what_surrounds(t, a, b);
        assert(t.subrange(a, b) =~= s.subrange(a, b));
        if b == 0 {
            assert(is_white_space(s[0]));
            lemma_all_white(s);
            assert(s.subrange(0, 0) =~= Seq::<char>::empty());
        } else {
            assert(trimmed_start(s) == s);
            assert(trimmed_start(t) == t);
        }
    } else {
        assert(s.subrange(a, b) =~= s);
    }
}

proof fn lemma_all_white(s: Seq<char>)
    requires
        forall|i: int| 0 <= i < s.len() ==> is_white_space(#[trigger] s[i]),
    ensures
        trimmed(s) == Seq::<char>::empty(),
    decreases s.len(),
{
    if s.len() > 0 {
        lemma_all_white(s.skip(1));
    } else {
        assert(s =~= Seq::<char>::empty());
    }
}

} // verus!
