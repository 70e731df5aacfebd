//! CRC-8 validator: a table-driven checksum over a frame's inner data part.
//!
//! The accumulator starts at 0 and, for each payload byte, becomes
//! `table[accumulator XOR byte]`. A frame passes when the final accumulator
//! equals the stored checksum byte, which sits 4 bytes from the frame's end
//! (the first byte of the trailing checksum group). The standard table is
//! generated from the polynomial 0x07.

use vstd::prelude::*;
use crate::message::inner_part;

verus! {

/// One shift step of the CRC-8 generator with polynomial 0x07: shift left by
/// one bit and, when a bit falls out, fold the polynomial back in.
pub open spec fn crc8_shift(c: u8) -> u8 {
    if c < 0x80 {
        (2 * c) as u8
    } else {
        ((2 * c - 0x100) as u8) ^ 0x07
    }
}

/// `n` generator shift steps applied to `c`.
pub open spec fn crc8_shift_n(c: u8, n: nat) -> u8
    decreases n,
{
    if n == 0 {
        c
    } else {
        crc8_shift(crc8_shift_n(c, (n - 1) as nat))
    }
}

/// Entry `i` of the standard CRC-8 table: byte `i` run through 8 generator
/// shift steps.
pub open spec fn crc8_entry(i: u8) -> u8 {
    crc8_shift_n(i, 8)
}

/// The standard 256-entry CRC-8 lookup table for polynomial 0x07.
pub open spec fn crc8_table_spec() -> Seq<u8> {
    Seq::new(256, |i: int| crc8_entry(i as u8))
}

/// Table-driven CRC-8 of a payload: accumulator starts at 0 and each byte
/// maps it through `table[accumulator XOR byte]`.
pub open spec fn crc8_of(payload: Seq<u8>, table: Seq<u8>) -> u8
    decreases payload.len(),
{
    if payload.len() == 0 {
        0
    } else {
        table[(crc8_of(payload.drop_last(), table) ^ payload.last()) as int]
    }
}

/// A frame passes the CRC check: it is longer than one 4-byte unit and the
/// CRC-8 of its inner data part equals the stored checksum byte, located
/// 4 bytes from the frame's end.
pub open spec fn crc_check_spec(data: Seq<u8>, table: Seq<u8>) -> bool {
    data.len() > 4 && crc8_of(inner_part(data), table) == data[data.len() - 4]
}

/// Build the standard CRC-8 lookup table for polynomial 0x07.
pub fn crc8_table() -> (t: Vec<u8>)
    ensures
        t@ == crc8_table_spec(),
        t@.len() == 256,
{
    let mut t: Vec<u8> = Vec::new();
    let mut i: usize = 0;
    while i < 256
        invariant
            i <= 256,
            t@.len() == i,
            forall|k: int| 0 <= k < i ==> t@[k] == crc8_entry(k as u8),
        decreases 256 - i,
    {
        let mut c: u8 = i as u8;
        let mut n: usize = 0;
        while n < 8
            invariant
                n <= 8,
                c == crc8_shift_n(i as u8, n as nat),
            decreases 8 - n,
        {
            if c < 0x80 {
                c = 2 * c;
            } else {
                c = ((c - 0x80) * 2) ^ 0x07;
            }
            n += 1;
        }
        t.push(c);
        i += 1;
    }
    proof {
        assert(t@ =~= crc8_table_spec());
    }
    t
}

/// Table-driven CRC-8 of a payload.
pub fn crc_compute(payload: &Vec<u8>, table: &Vec<u8>) -> (r: u8)
    requires
        table@.len() == 256,
    ensures
        r == crc8_of(payload@, table@),
{
    let mut acc: u8 = 0;
    let mut i: usize = 0;
    while i < payload.len()
        invariant
            table@.len() == 256,
            i <= payload@.len(),
            acc == crc8_of(payload@.take(i as int), table@),
        decreases payload@.len() - i,
    {
        proof {
            assert(payload@.take(i + 1).drop_last() =~= payload@.take(i as int));
            assert(payload@.take(i + 1).last() == payload@[i as int]);
        }
        let x = acc ^ payload[i];
        acc = table[x as usize];
        i += 1;
    }
    proof {
        assert(payload@.take(payload@.len() as int) =~= payload@);
    }
    acc
}

/// One generator shift step keeps distinct bytes distinct.
proof fn lemma_crc8_shift_injective(a: u8, b: u8)
    requires
        a != b,
    ensures
        crc8_shift(a) != crc8_shift(b),
{
    assert(a != b ==> crc8_shift(a) != crc8_shift(b)) by (bit_vector);
}

/// Any number of generator shift steps keeps distinct bytes distinct; in
/// particular the standard table maps distinct indexes to distinct entries.
proof fn lemma_crc8_shift_n_injective(a: u8, b: u8, n: nat)
    requires
        a != b,
    ensures
        crc8_shift_n(a, n) != crc8_shift_n(b, n),
    decreases n,
{
    if n != 0 {
        lemma_crc8_shift_n_injective(a, b, (n - 1) as nat);
        lemma_crc8_shift_injective(crc8_shift_n(a, (n - 1) as nat), crc8_shift_n(b, (n - 1) as nat));
    }
}

/// Corruption-detection law for the standard table: two payloads of equal
/// length that differ in exactly one byte never share a CRC-8, because
/// XOR-ing into the accumulator and looking it up in the (injective) table
/// both preserve a difference once introduced.
pub proof fn lemma_crc8_detects_single_byte_change(p: Seq<u8>, q: Seq<u8>, i: int)
    requires
        p.len() == q.len(),
        0 <= i < p.len(),
        p[i] != q[i],
        forall|j: int| 0 <= j < p.len() && j != i ==> p[j] == q[j],
    ensures
        crc8_of(p, crc8_table_spec()) != crc8_of(q, crc8_table_spec()),
    decreases p.len(),
{
    let t = crc8_table_spec();
    if i == p.len() - 1 {
        assert(p.drop_last() =~= q.drop_last());
        let acc = crc8_of(p.drop_last(), t);
        let x = acc ^ p.last();
        let y = acc ^ q.last();
        let pl = p.last();
        let ql = q.last();
        assert(pl != ql ==> acc ^ pl != acc ^ ql) by (bit_vector);
        lemma_crc8_shift_n_injective(x, y, 8);
        assert(t[x as int] == crc8_entry(x));
        assert(t[y as int] == crc8_entry(y));
    } else {
        assert(p.last() == q.last());
        assert(forall|j: int|
            0 <= j < p.drop_last().len() && j != i ==> p.drop_last()[j] == q.drop_last()[j]);
        lemma_crc8_detects_single_byte_change(p.drop_last(), q.drop_last(), i);
        let x0 = crc8_of(p.drop_last(), t);
        let y0 = crc8_of(q.drop_last(), t);
        let b = p.last();
        assert(x0 != y0 ==> x0 ^ b != y0 ^ b) by (bit_vector);
        lemma_crc8_shift_n_injective(x0 ^ b, y0 ^ b, 8);
        assert(t[(x0 ^ b) as int] == crc8_entry(x0 ^ b));
        assert(t[(y0 ^ b) as int] == crc8_entry(y0 ^ b));
    }
}

/// A frame that passes the CRC check under the standard table fails it
/// after any single inner-data byte is corrupted: the stored checksum byte
/// is outside the inner part, so it is unchanged, while the recomputed
/// CRC-8 is not.
pub proof fn lemma_crc_check_detects_corruption(data: Seq<u8>, corrupt: Seq<u8>, i: int)
    requires
        crc_check_spec(data, crc8_table_spec()),
        corrupt.len() == data.len(),
        4 <= i < data.len() - 8,
        corrupt[i] != data[i],
        forall|j: int| 0 <= j < data.len() && j != i ==> corrupt[j] == data[j],
    ensures
        !crc_check_spec(corrupt, crc8_table_spec()),
{
    let inner_d = inner_part(data);
    let inner_c = inner_part(corrupt);
    assert(data.len() >= 12);
    assert(inner_d.len() == inner_c.len());
    assert(inner_c[i - 4] != inner_d[i - 4]);
    assert(forall|j: int|
        0 <= j < inner_d.len() && j != i - 4 ==> inner_c[j] == inner_d[j]);
    lemma_crc8_detects_single_byte_change(inner_c, inner_d, i - 4);
    assert(corrupt[corrupt.len() - 4] == data[data.len() - 4]);
}

/// CRC check of a finalized frame: recomputes the CRC-8 of the frame's inner
/// data part and compares it with the stored checksum byte 4 bytes from the
/// end. Fails closed on a frame no longer than one 4-byte unit.
pub fn crc_check(data: &Vec<u8>, crc_table: &Vec<u8>) -> (r: bool)
    requires
        crc_table@.len() == 256,
    ensures
        r == crc_check_spec(data@, crc_table@),
{
    if data.len() > 4 {
        let inner = crate::message::get_message_inner_part(data);
        let expected = data[data.len() - 4];
        let computed = crc_compute(&inner, crc_table);
        computed == expected
    } else {
        false
    }
}

} // verus!
