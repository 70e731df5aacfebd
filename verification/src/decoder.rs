//! Message decoder: turns a validated frame's inner data part into a
//! structured record. The inner part is split into whole 8-byte chunks
//! (a trailing partial chunk is ignored); each chunk is a 4-byte id and a
//! 4-byte Q16.15 value, both byte-reversed before interpretation because the
//! link transmits least-significant byte first. Ids are rendered with an
//! ASCII-or-hex rule: a printable ASCII byte passes through as a character, a
//! non-ASCII byte renders as `0x` plus two uppercase hex digits.

use vstd::prelude::*;
use crate::codec::{FixedValue, q16_15_value};
use crate::message::{inner_part, le_u32_at};
use crate::record::{EntryModel, VariableEntry, VariableRecord, entry_models};

verus! {

/// The uppercase hexadecimal digit for a value below 16.
pub open spec fn hex_digit(d: u8) -> char {
    if d < 10 {
        (48 + d) as char
    } else {
        (55 + d) as char
    }
}

/// Display representation of one byte: an ASCII byte is itself, a non-ASCII
/// byte is a `0x`-prefixed pair of uppercase hex digits.
pub open spec fn byte_repr(b: u8) -> Seq<char> {
    if b < 128 {
        seq![b as char]
    } else {
        seq!['0', 'x', hex_digit(b / 16), hex_digit(b % 16)]
    }
}

/// Display representation of a byte string: each byte rendered by the
/// ASCII-or-hex rule, in order.
pub open spec fn ascii_hex_repr(s: Seq<u8>) -> Seq<char>
    decreases s.len(),
{
    if s.len() == 0 {
        Seq::<char>::empty()
    } else {
        ascii_hex_repr(s.drop_last()) + byte_repr(s.last())
    }
}

/// Byte string wrapper whose display form follows the ASCII-or-hex rule.
pub struct Utf8Lossy<'a>(pub &'a [u8]);

/// Relies on String::push: appends the given character to the end of the
/// string.
#[verifier::external_body]
fn push_char(s: &mut String, c: char)
    ensures
        final(s)@ == old(s)@.push(c),
{
    s.push(c)
}

/// The uppercase hexadecimal digit for a value below 16.
fn hex_digit_char(d: u8) -> (c: char)
    requires
        d < 16,
    ensures
        c == hex_digit(d),
{
    if d < 10 {
        (48 + d) as char
    } else {
        (55 + d) as char
    }
}

/// Render a byte string by the ASCII-or-hex rule.
pub fn ascii_hex_string(data: &[u8]) -> (r: String)
    ensures
        r@ == ascii_hex_repr(data@),
{
    let mut r = String::new();
    let mut i: usize = 0;
    while i < data.len()
        invariant
            i <= data@.len(),
            r@ == ascii_hex_repr(data@.take(i as int)),
        decreases data@.len() - i,
    {
        let b = data[i];
        proof {
            assert(data@.take(i + 1).drop_last() =~= data@.take(i as int));
            assert(data@.take(i + 1).last() == data@[i as int]);
        }
        if b < 128 {
            push_char(&mut r, b as char);
            proof {
                assert(r@ =~= ascii_hex_repr(data@.take(i + 1)));
            }
        } else {
            push_char(&mut r, '0');
            push_char(&mut r, 'x');
            push_char(&mut r, hex_digit_char(b / 16));
            push_char(&mut r, hex_digit_char(b % 16));
            proof {
                assert(r@ =~= ascii_hex_repr(data@.take(i + 1)));
            }
        }
        i += 1;
    }
    proof {
        assert(data@.take(data@.len() as int) =~= data@);
    }
    r
}

impl<'a> Utf8Lossy<'a> {
    /// The display form of the wrapped bytes under the ASCII-or-hex rule.
    pub fn to_display_string(&self) -> (r: String)
        ensures
            r@ == ascii_hex_repr(self.0@),
    {
        ascii_hex_string(self.0)
    }
}

/// The entry denoted by one 8-byte chunk: the first 4 bytes, byte-reversed,
/// rendered as the id; the last 4 bytes, byte-reversed, decoded as a Q16.15
/// value.
pub open spec fn chunk_entry(c: Seq<u8>) -> EntryModel {
    EntryModel {
        id: ascii_hex_repr(c.subrange(0, 4).reverse()),
        value: q16_15_value(le_u32_at(c, 4) as u32),
    }
}

/// The entries denoted by the whole 8-byte chunks of a payload, in order; a
/// trailing partial chunk denotes nothing.
pub open spec fn decode_chunks(payload: Seq<u8>) -> Seq<EntryModel>
    decreases payload.len(),
{
    if payload.len() < 8 {
        Seq::<EntryModel>::empty()
    } else {
        seq![chunk_entry(payload.take(8))] + decode_chunks(payload.skip(8))
    }
}

/// The record denoted by a finalized frame: the decoded chunks of its inner
/// data part.
pub open spec fn decoded_record(frame: Seq<u8>) -> Seq<EntryModel> {
    decode_chunks(inner_part(frame))
}

/// Decode a finalized frame into a structured record: strip the length field
/// and checksum group, then decode each whole 8-byte chunk of the remainder
/// into an (id, value) pair.
pub fn get_structured_message_data(data: &Vec<u8>) -> (r: VariableRecord)
    ensures
        r@ == decoded_record(data@),
{
    let message_data = crate::message::get_message_inner_part(data);
    let mut entries: Vec<VariableEntry> = Vec::new();
    let mut i: usize = 0;
    proof {
        assert(message_data@.skip(0) =~= message_data@);
    }
    while message_data.len() - i >= 8
        invariant
            i <= message_data@.len(),
            decode_chunks(message_data@) =~= entry_models(entries@) + decode_chunks(
                message_data@.skip(i as int),
            ),
        decreases message_data@.len() - i,
    {
        let mut rev_id: Vec<u8> = Vec::new();
        rev_id.push(message_data[i + 3]);
        rev_id.push(message_data[i + 2]);
        rev_id.push(message_data[i + 1]);
        rev_id.push(message_data[i]);
        let id = ascii_hex_string(rev_id.as_slice());
        let w: u32 = (message_data[i + 7] as u32) * 0x100_0000 + (message_data[i + 6] as u32)
            * 0x1_0000 + (message_data[i + 5] as u32) * 0x100 + (message_data[i + 4] as u32);
        let value: FixedValue = crate::codec::decode_q16_15(w);
        let entry = VariableEntry { id, value };
        proof {
            let c = message_data@.skip(i as int);
            assert(rev_id@ =~= c.subrange(0, 4).reverse());
            assert(w == le_u32_at(c, 4));
            assert(c.take(8) =~= c.subrange(0, 8));
            assert(c.take(8).subrange(0, 4) =~= c.subrange(0, 4));
            assert(le_u32_at(c.take(8), 4) == le_u32_at(c, 4));
            assert(entry@ == chunk_entry(c.take(8)));
            assert(entry_models(entries@.push(entry)) =~= entry_models(entries@) + seq![entry@]);
            assert(c.skip(8) =~= message_data@.skip(i + 8));
        }
        entries.push(entry);
        i += 8;
    }
    proof {
        assert(decode_chunks(message_data@.skip(i as int)) =~= Seq::<EntryModel>::empty());
    }
    let r = VariableRecord { entries };
    proof {
        assert(r@ =~= decoded_record(data@));
    }
    r
}

} // verus!
