//! The 8-bit cyclic redundancy check that guards device addresses and
//! register reads on the wire (polynomial x^8 + x^5 + x^4 + 1, bits taken
//! least significant first, register starting at zero).

use vstd::prelude::*;

verus! {

/// The checksum register after one more data bit. The incoming bit is the
/// lowest bit of `byte`; the register shifts right and the reflected
/// polynomial `0x8C` is folded in when the bit leaving the register and the
/// data bit differ.
pub open spec fn crc8_shift(crc: u8, byte: u8) -> u8 {
    if (byte ^ crc) & 0x01 != 0 {
        (crc >> 1) ^ 0x8C
    } else {
        crc >> 1
    }
}

/// The checksum register after all eight bits of `byte`, lowest bit first.
pub open spec fn crc8_byte(crc: u8, byte: u8) -> u8 {
    let c1 = crc8_shift(crc, byte);
    let c2 = crc8_shift(c1, byte >> 1);
    let c3 = crc8_shift(c2, byte >> 2);
    let c4 = crc8_shift(c3, byte >> 3);
    let c5 = crc8_shift(c4, byte >> 4);
    let c6 = crc8_shift(c5, byte >> 5);
    let c7 = crc8_shift(c6, byte >> 6);
    crc8_shift(c7, byte >> 7)
}

/// The checksum of a byte string: the register starts at zero and takes the
/// bytes in order.
pub open spec fn crc8(data: Seq<u8>) -> u8
    decreases data.len(),
{
    if data.len() == 0 {
        0
    } else {
        crc8_byte(crc8(data.drop_last()), data.last())
    }
}

/// A message passes the check when the checksum over all of it, trailing
/// checksum byte included, is zero.
pub open spec fn crc8_ok(data: Seq<u8>) -> bool {
    crc8(data) == 0
}

/// Trusted: `one_wire_bus::crc::crc8`. The contract restates that function's
/// loop: a register that starts at zero and, for each byte in order and each
/// of its eight bits from the lowest up, shifts right by one and is xor-ed
/// with `0x8C` when the data bit and the register's lowest bit differ.
#[verifier::external_body]
pub(crate) fn checksum(data: &[u8]) -> (crc: u8)
    ensures
        crc == crc8(data@),
{
    one_wire_bus::crc::crc8(data)
}

/// Feeding a byte into the register yields zero exactly when the byte equals
/// the register.
pub proof fn lemma_byte_clears_register(crc: u8, byte: u8)
    by (bit_vector)
    ensures
        crc8_byte(crc, byte) == 0 <==> crc == byte,
{
}

/// One byte step loses nothing: two steps end in the same register exactly
/// when register and byte had the same xor before.
pub proof fn lemma_byte_step_injective(crc_a: u8, byte_a: u8, crc_b: u8, byte_b: u8)
    by (bit_vector)
    ensures
        crc8_byte(crc_a, byte_a) == crc8_byte(crc_b, byte_b) <==> crc_a ^ byte_a == crc_b ^ byte_b,
{
}

proof fn lemma_xor_cancel(a: u8, b: u8, c: u8)
    by (bit_vector)
    ensures
        (a ^ c == b ^ c) <==> a == b,
        (c ^ a == c ^ b) <==> a == b,
{
}

/// The checksum of a message extended by one byte.
pub proof fn lemma_crc8_push(data: Seq<u8>, byte: u8)
    ensures
        crc8(data.push(byte)) == crc8_byte(crc8(data), byte),
{
    assert(data.push(byte).drop_last() =~= data);
}

/// A message followed by a byte passes the check if and only if that byte is
/// the checksum of the message.
pub proof fn lemma_trailing_checksum(data: Seq<u8>, byte: u8)
    ensures
        crc8_ok(data.push(byte)) <==> byte == crc8(data),
{
    lemma_crc8_push(data, byte);
    lemma_byte_clears_register(crc8(data), byte);
}

/// Two messages of equal length that differ in exactly one byte never have
/// the same checksum. In particular a message that passes the check stops
/// passing when any single bit of it is flipped.
pub proof fn lemma_single_byte_error_detected(good: Seq<u8>, bad: Seq<u8>, at: int)
    requires
        good.len() == bad.len(),
        0 <= at < good.len(),
        good[at] != bad[at],
        forall|j: int| 0 <= j < good.len() && j != at ==> good[j] == bad[j],
    ensures
        crc8(good) != crc8(bad),
    decreases good.len(),
{
    let g = good.drop_last();
    let b = bad.drop_last();
    if at == good.len() - 1 {
        assert(g =~= b);
        lemma_byte_step_injective(crc8(g), good.last(), crc8(b), bad.last());
        lemma_xor_cancel(good.last(), bad.last(), crc8(g));
    } else {
        lemma_single_byte_error_detected(g, b, at);
        lemma_byte_step_injective(crc8(g), good.last(), crc8(b), bad.last());
        lemma_xor_cancel(crc8(g), crc8(b), good.last());
    }
}

} // verus!
