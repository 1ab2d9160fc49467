//! Numbers written out as text.
use vstd::prelude::*;
use vstd::string::*;

use crate::reading::Reading;
use crate::rounding::decimal;

verus! {

/// The digit for a number below 16, letters in lower case.
pub open spec fn digit(n: int) -> char {
    if n < 10 {
        ('0' as int + n) as char
    } else {
        ('a' as int + n - 10) as char
    }
}

/// The last `places` digits of a number in a base, with leading zeros.
pub open spec fn digits(n: int, base: int, places: nat) -> Seq<char>
    decreases places,
{
    if places == 0 {
        Seq::empty()
    } else {
        digits(n / base, base, (places - 1) as nat).push(digit(n % base))
    }
}

/// There are as many digits as asked for, and each is one that the base has.
pub proof fn lemma_digits(n: int, base: int, places: nat)
    requires
        n >= 0,
        2 <= base <= 16,
    ensures
        digits(n, base, places).len() == places,
        forall|i: int|
            0 <= i < places ==> {
                let c = #[trigger] digits(n, base, places)[i];
                '0' <= c <= '9' || 'a' <= c <= 'f'
            },
    decreases places,
{
    if places > 0 {
        assert(n / base >= 0) by (nonlinear_arith)
            requires
                n >= 0,
                base >= 2,
        ;
        assert(0 <= n % base < base) by (nonlinear_arith)
            requires
                n >= 0,
                base >= 2,
        ;
        lemma_digits(n / base, base, (places - 1) as nat);
    }
}

fn digit_text(n: u32) -> (r: &'static str)
    requires
        n < 16,
    ensures
        r@ == seq![digit(n as int)],
{
    proof {
        reveal_strlit("0");
        reveal_strlit("1");
        reveal_strlit("2");
        reveal_strlit("3");
        reveal_strlit("4");
        reveal_strlit("5");
        reveal_strlit("6");
        reveal_strlit("7");
        reveal_strlit("8");
        reveal_strlit("9");
        reveal_strlit("a");
        reveal_strlit("b");
        reveal_strlit("c");
        reveal_strlit("d");
        reveal_strlit("e");
        reveal_strlit("f");
    }
    let r = match n {
        0 => "0",
        1 => "1",
        2 => "2",
        3 => "3",
        4 => "4",
        5 => "5",
        6 => "6",
        7 => "7",
        8 => "8",
        9 => "9",
        10 => "a",
        11 => "b",
        12 => "c",
        13 => "d",
        14 => "e",
        _ => "f",
    };
    assert(r@ =~= seq![digit(n as int)]);
    r
}

/// Appends the last `places` digits of a number, with leading zeros.
pub fn push_digits(out: &mut String, n: u32, base: u32, places: u32)
    requires
        2 <= base <= 16,
    ensures
        final(out)@ == old(out)@ + digits(n as int, base as int, places as nat),
    decreases places,
{
    if places > 0 {
        push_digits(out, n / base, base, places - 1);
        out.append(digit_text(n % base));
    }
    assert(out@ =~= old(out)@ + digits(n as int, base as int, places as nat));
}

/// Ten to the given power.
pub open spec fn power_of_ten(places: nat) -> int
    decreases places,
{
    if places == 0 {
        1
    } else {
        10 * power_of_ten((places - 1) as nat)
    }
}

/// What stands ahead of a number: a minus where its sign is set, and otherwise
/// a plus if one is asked for.
pub open spec fn sign_text(negative: bool, plus: bool) -> Seq<char> {
    if negative {
        "-"@
    } else if plus {
        "+"@
    } else {
        Seq::empty()
    }
}

/// A number of steps of one `10^places`-th, in decimal.
pub open spec fn steps_text(steps: int, places: nat) -> Seq<char> {
    digits(steps / power_of_ten(places), 10, 1) + "."@ + digits(
        steps % power_of_ten(places),
        10,
        places,
    )
}

/// A reading in decimal, rounded to `places` places and to the even digit on a
/// tie.
pub open spec fn reading_text(r: Reading, places: nat, plus: bool) -> Seq<char> {
    sign_text(r.is_negative(), plus) + steps_text(
        decimal(r.magnitude(), power_of_ten(places)),
        places,
    )
}

/// Appends a reading in decimal, rounded to `places` places.
pub fn push_reading(out: &mut String, r: Reading, places: u32, plus: bool)
    requires
        1 <= places <= 4,
    ensures
        final(out)@ == old(out)@ + reading_text(r, places as nat, plus),
{
    let scale: u32 = match places {
        1 => 10,
        2 => 100,
        3 => 1000,
        _ => 10_000,
    };
    proof {
        reveal_with_fuel(power_of_ten, 5);
        assert(scale == power_of_ten(places as nat));
        use_type_invariant(&r);
    }
    let steps: u32 = r.steps(scale);
    if r.negative() {
        out.append("-");
    } else if plus {
        out.append("+");
    }
    let ghost signed = out@;
    assert(signed =~= old(out)@ + sign_text(r.is_negative(), plus));
    push_digits(out, steps / scale, 10, 1);
    out.append(".");
    push_digits(out, steps % scale, 10, places);
    assert(out@ =~= old(out)@ + reading_text(r, places as nat, plus));
}

} // verus!
