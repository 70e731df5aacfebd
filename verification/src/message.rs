//! Wire-frame layout: the length field, the inner data part, and the raw
//! big-endian word value of a byte chunk.
//!
//! A finalized candidate frame is laid out, in 4-byte units, as
//! `[length: 4][variable chunks: length * 4][CRC byte + 3 reserved: 4]`, the
//! leading start-marker residue and the trailing stop marker having already
//! been trimmed away by the synchronizer.

use vstd::prelude::*;

verus! {

/// Value of a byte string read big-endian (first byte most significant).
pub open spec fn be_value(s: Seq<u8>) -> nat
    decreases s.len(),
{
    if s.len() == 0 {
        0
    } else {
        be_value(s.drop_last()) * 256 + s.last() as nat
    }
}

/// Value of the 4 bytes of `s` starting at `i`, read byte-reversed (the link
/// transmits least-significant byte first).
pub open spec fn le_u32_at(s: Seq<u8>, i: int) -> int {
    s[i + 3] * 0x100_0000 + s[i + 2] * 0x1_0000 + s[i + 1] * 0x100 + s[i]
}

/// The declared payload-unit count of a finalized frame: its first 4 bytes,
/// byte-reversed, interpreted as an unsigned 32-bit integer and clamped to
/// at most 256.
pub open spec fn length_field(s: Seq<u8>) -> int {
    if le_u32_at(s, 0) < 256 {
        le_u32_at(s, 0)
    } else {
        256
    }
}

/// The inner data part of a finalized frame: everything between the 4-byte
/// length field and the trailing 8 bytes (CRC group and checksum indicator).
/// A frame too short to hold that layout has an empty inner part.
pub open spec fn inner_part(s: Seq<u8>) -> Seq<u8> {
    if s.len() >= 12 {
        s.subrange(4, s.len() - 8)
    } else {
        Seq::<u8>::empty()
    }
}

/// The unsigned 32-bit value that a big-endian reading of `s` denotes, or 0
/// when `s` is empty or its value does not fit in 32 bits.
pub open spec fn chunk_word(s: Seq<u8>) -> nat {
    if be_value(s) <= u32::MAX {
        be_value(s)
    } else {
        0
    }
}

/// Big-endian word value of a byte chunk; 0 for an empty chunk and for one
/// whose value overflows 32 bits.
pub fn get_hex_from_chunk(data: &[u8]) -> (r: u32)
    ensures
        r == chunk_word(data@),
{
    let mut acc: u32 = 0;
    let mut overflow: bool = false;
    let mut i: usize = 0;
    while i < data.len()
        invariant
            i <= data@.len(),
            !overflow ==> acc == be_value(data@.take(i as int)),
            overflow ==> be_value(data@.take(i as int)) > u32::MAX,
        decreases data@.len() - i,
    {
        let b = data[i];
        proof {
            assert(data@.take(i + 1).drop_last() =~= data@.take(i as int));
            assert(data@.take(i + 1).last() == data@[i as int]);
        }
        if overflow || acc >= 0x100_0000 {
            overflow = true;
            acc = 0;
        } else {
            acc = acc * 0x100 + (b as u32);
        }
        i += 1;
    }
    proof {
        assert(data@.take(data@.len() as int) =~= data@);
    }
    if overflow {
        0
    } else {
        acc
    }
}

/// Declared payload-unit count of a finalized frame: the first 4 bytes,
/// byte-reversed, as an unsigned 32-bit integer, clamped to at most 256.
pub fn get_length_of_message_data(data: &Vec<u8>) -> (r: u32)
    requires
        data@.len() >= 4,
    ensures
        r == length_field(data@),
{
    let w: u32 = (data[3] as u32) * 0x100_0000 + (data[2] as u32) * 0x1_0000 + (data[1] as u32)
        * 0x100 + (data[0] as u32);
    if w < 256 {
        w
    } else {
        256
    }
}

/// Inner data part of a finalized frame: the bytes between the length field
/// and the trailing checksum group; empty when the frame is too short to
/// hold the layout.
pub fn get_message_inner_part(data: &Vec<u8>) -> (r: Vec<u8>)
    ensures
        r@ == inner_part(data@),
{
    let mut out: Vec<u8> = Vec::new();
    if data.len() >= 12 {
        let end = data.len() - 8;
        let mut i: usize = 4;
        while i < end
            invariant
                4 <= i <= end,
                end == data@.len() - 8,
                data@.len() >= 12,
                out@ == data@.subrange(4, i as int),
            decreases end - i,
        {
            out.push(data[i]);
            proof {
                assert(data@.subrange(4, i + 1) =~= data@.subrange(4, i as int).push(
                    data@[i as int],
                ));
            }
            i += 1;
        }
    } else {
        proof {
            assert(out@ =~= inner_part(data@));
        }
    }
    out
}

} // verus!
