//! What an encoded reading is worth, by how encodings compare.
use vstd::arithmetic::power2::*;
use vstd::prelude::*;

use crate::reading::{
    bits_are_number, bits_held, bits_magnitude, bits_negative, bits_units,
};
use crate::rounding::one;

verus! {

/// The first bit is the sign: it turns a value round and changes nothing else.
pub proof fn law_the_first_bit_is_the_sign(bits: u32)
    requires
        bits < 0x8000_0000,
    ensures
        !bits_negative(bits),
        bits_negative((bits + 0x8000_0000) as u32),
        bits_units(bits) == bits_magnitude(bits),
        bits_units((bits + 0x8000_0000) as u32) == -bits_units(bits),
        bits_magnitude((bits + 0x8000_0000) as u32) == bits_magnitude(bits),
{
    assert((bits as int + 0x8000_0000) / 0x80_0000 == bits as int / 0x80_0000 + 256);
}

/// The encoding of 1 is worth 1. One power of two up, a value is twice as much; within a
/// power of two, values are evenly spaced, as they are below the smallest one.
pub proof fn law_values_double_with_the_exponent(bits: u32)
    requires
        bits < 0x8000_0000,
    ensures
        bits_magnitude(0x3f80_0000) == one(),
        bits_magnitude(0) == 0,
        0x80_0000 <= bits < 0x7f80_0000 ==> bits_magnitude((bits + 0x80_0000) as u32) == 2
            * bits_magnitude(bits),
        bits < 0x80_0000 ==> bits_magnitude(bits) == bits,
        0x80_0000 <= bits ==> ({
            let power = bits_magnitude((bits - bits % 0x80_0000) as u32);
            0x80_0000 * bits_magnitude(bits) == power * (0x80_0000 + bits as int % 0x80_0000)
        }),
{
    lemma2_to64();
    lemma_pow2_adds(23, 126);
    let (e, f) = (bits as int / 0x80_0000, bits as int % 0x80_0000);
    if e > 0 {
        let s = pow2((e - 1) as nat) as int;
        if e < 255 {
            lemma_pow2_unfold(e as nat);
            assert((0x80_0000 + f) * (2 * s) == 2 * ((0x80_0000 + f) * s)) by (nonlinear_arith);
            assert((bits as int + 0x80_0000) / 0x80_0000 == e + 1);
            assert((bits as int + 0x80_0000) % 0x80_0000 == f);
        }
        let start = (bits - bits % 0x80_0000) as u32;
        assert(start as int / 0x80_0000 == e && start as int % 0x80_0000 == 0);
        assert(0x80_0000 * ((0x80_0000 + f) * s) == (0x80_0000 * s) * (0x80_0000 + f))
            by (nonlinear_arith);
    }
}

/// Encodings that stand for a number are those up to the one of infinity, with either
/// sign. A value is held between -1 and 1, and is itself where it lies there.
pub proof fn law_values_are_held_between_the_ends(bits: u32)
    ensures
        bits_are_number(bits) <==> bits as int % 0x8000_0000 <= 0x7f80_0000,
        -one() <= bits_units(bits) <= one() ==> bits_held(bits) == bits_units(bits),
        bits_units(bits) > one() ==> bits_held(bits) == one(),
        bits_units(bits) < -one() ==> bits_held(bits) == -one(),
{
    lemma_pow2_pos(149);
}

} // verus!
