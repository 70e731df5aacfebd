//! Fixed-point codec: decodes a 32-bit packed word, interpreted per a Q16.15
//! scheme (17 integer bits including sign, 15 fractional bits), into an exact
//! signed value `int_part + frac_num / 32768`.
//!
//! The decoded value is kept exact: `int_part` is the (floor) integer part and
//! `frac_num` the numerator of the fractional part over 32768. Every 32-bit
//! input has a defined output; there are no error conditions.

use vstd::prelude::*;
use vstd::arithmetic::div_mod::lemma_fundamental_div_mod_converse;

verus! {

/// A decoded Q16.15 value: the exact number `int_part + frac_num / 32768`.
#[derive(Clone, Copy, PartialEq, Eq, Structural, Debug)]
pub struct FixedValue {
    /// Integer part (floor) of the value; ranges over -65536 ..= 65535.
    pub int_part: i32,
    /// Numerator of the fractional part over 32768; always below 32768.
    pub frac_num: u16,
}

/// The 32-bit word reinterpreted as a signed (two's-complement) integer.
pub open spec fn word_as_signed(w: u32) -> int {
    if w < 0x8000_0000 {
        w as int
    } else {
        w - 0x1_0000_0000
    }
}

/// Integer part of the Q16.15 value packed in `w` (floor of signed / 2^15).
pub open spec fn q16_15_int_part(w: u32) -> int {
    word_as_signed(w) / 0x8000
}

/// Fractional numerator of the Q16.15 value packed in `w`.
pub open spec fn q16_15_frac_num(w: u32) -> int {
    word_as_signed(w) % 0x8000
}

/// A `FixedValue` holds exactly the Q16.15 value packed in `w`.
pub open spec fn is_q16_15_decode(w: u32, v: FixedValue) -> bool {
    v.int_part == q16_15_int_part(w) && v.frac_num == q16_15_frac_num(w)
}

/// The `FixedValue` that decoding `w` yields.
pub open spec fn q16_15_value(w: u32) -> FixedValue {
    FixedValue { int_part: q16_15_int_part(w) as i32, frac_num: q16_15_frac_num(w) as u16 }
}

/// Decode a 32-bit packed word as a Q16.15 fixed-point number: the high
/// 17 bits are the sign-extended integer part, the low 15 bits the
/// fractional numerator over 32768. Total on every 32-bit input.
pub fn decode_q16_15(w: u32) -> (r: FixedValue)
    ensures
        is_q16_15_decode(w, r),
        r == q16_15_value(w),
        r.int_part * 0x8000 + r.frac_num == word_as_signed(w),
        -0x10000 <= r.int_part < 0x10000,
        r.frac_num < 0x8000,
{
    let hi: u32 = w >> 15;
    let frac: u16 = (w & 0x7FFF) as u16;
    proof {
        assert(w == (w >> 15) * 0x8000 + (w & 0x7FFF)) by (bit_vector);
        assert(w & 0x7FFF < 0x8000) by (bit_vector);
        assert(w >> 15 < 0x20000) by (bit_vector);
        assert((w >> 15 >= 0x10000) <==> (w >= 0x8000_0000)) by (bit_vector);
    }
    let int_part: i32 = if hi >= 0x10000 {
        (hi as i32) - 0x20000
    } else {
        hi as i32
    };
    proof {
        assert(int_part * 0x8000 + frac == word_as_signed(w));
        lemma_fundamental_div_mod_converse(
            word_as_signed(w),
            0x8000,
            int_part as int,
            frac as int,
        );
    }
    FixedValue { int_part, frac_num: frac }
}

} // verus!
