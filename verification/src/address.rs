//! Device addresses: 64 bits, of which the lowest byte names the device
//! family, the next six bytes are a serial number and the highest byte is the
//! checksum of the other seven.

use vstd::prelude::*;
use crate::crc::{checksum, crc8, crc8_ok, lemma_single_byte_error_detected, lemma_trailing_checksum};

verus! {

/// The eight bytes of an address in the order in which they travel on the
/// wire: least significant first.
pub open spec fn le_bytes(raw: u64) -> Seq<u8> {
    seq![
        (raw & 0xff) as u8,
        ((raw >> 8) & 0xff) as u8,
        ((raw >> 16) & 0xff) as u8,
        ((raw >> 24) & 0xff) as u8,
        ((raw >> 32) & 0xff) as u8,
        ((raw >> 40) & 0xff) as u8,
        ((raw >> 48) & 0xff) as u8,
        ((raw >> 56) & 0xff) as u8,
    ]
}

/// The family code of an address: its first byte on the wire.
pub open spec fn family_of(raw: u64) -> u8 {
    (raw & 0xff) as u8
}

/// An address is valid when its eight bytes pass the checksum.
pub open spec fn address_ok(raw: u64) -> bool {
    crc8_ok(le_bytes(raw))
}

/// The 64-bit value whose bytes on the wire are the given eight.
pub open spec fn from_le_bytes(b: Seq<u8>) -> u64 {
    (b[0] as u64) | (b[1] as u64) << 8 | (b[2] as u64) << 16 | (b[3] as u64) << 24
        | (b[4] as u64) << 32 | (b[5] as u64) << 40 | (b[6] as u64) << 48 | (b[7] as u64) << 56
}

/// The address of one device on the bus.
#[derive(Clone, Copy, Debug, PartialEq, Eq, Structural)]
pub struct Address(pub u64);

/// Trusted: `one_wire_bus::Address::family_code`, which returns the first of
/// the address's little-endian bytes, that is its lowest eight bits.
#[verifier::external_body]
fn outside_family_code(raw: u64) -> (code: u8)
    ensures
        code == family_of(raw),
{
    one_wire_bus::Address(raw).family_code()
}

impl Address {
    pub open spec fn spec_family_code(&self) -> u8 {
        family_of(self.0)
    }

    pub open spec fn spec_is_valid(&self) -> bool {
        address_ok(self.0)
    }

    /// The family code: which kind of device this is.
    #[verifier::when_used_as_spec(spec_family_code)]
    pub fn family_code(&self) -> (code: u8)
        ensures
            code == family_of(self.0),
    {
        outside_family_code(self.0)
    }

    /// The address as it travels on the wire.
    pub fn to_bytes(&self) -> (bytes: [u8; 8])
        ensures
            bytes@ == le_bytes(self.0),
    {
        let raw = self.0;
        let bytes: [u8; 8] = [
            (raw & 0xff) as u8,
            ((raw >> 8) & 0xff) as u8,
            ((raw >> 16) & 0xff) as u8,
            ((raw >> 24) & 0xff) as u8,
            ((raw >> 32) & 0xff) as u8,
            ((raw >> 40) & 0xff) as u8,
            ((raw >> 48) & 0xff) as u8,
            ((raw >> 56) & 0xff) as u8,
        ];
        assert(bytes@ =~= le_bytes(raw));
        bytes
    }

    /// Whether the checksum byte fits the other seven.
    #[verifier::when_used_as_spec(spec_is_valid)]
    pub fn is_valid(&self) -> (ok: bool)
        ensures
            ok == address_ok(self.0),
    {
        let bytes = self.to_bytes();
        checksum(bytes.as_slice()) == 0
    }

    /// The valid address with the given family code and serial number: the
    /// checksum byte is computed.
    pub fn from_parts(family: u8, serial: [u8; 6]) -> (address: Address)
        ensures
            address.0 == from_le_bytes(
                (seq![family] + serial@).push(crc8(seq![family] + serial@)),
            ),
            address_ok(address.0),
            family_of(address.0) == family,
            le_bytes(address.0).subrange(0, 1) == seq![family],
            le_bytes(address.0).subrange(1, 7) == serial@,
    {
        let head: [u8; 7] = [
            family,
            serial[0],
            serial[1],
            serial[2],
            serial[3],
            serial[4],
            serial[5],
        ];
        let check = checksum(head.as_slice());
        let raw = (family as u64) | (serial[0] as u64) << 8 | (serial[1] as u64) << 16 | (
        serial[2] as u64) << 24 | (serial[3] as u64) << 32 | (serial[4] as u64) << 40 | (
        serial[5] as u64) << 48 | (check as u64) << 56;
        proof {
            let all = head@.push(check);
            assert(head@ =~= seq![family] + serial@);
            assert(raw == from_le_bytes(all));
            lemma_le_bytes_of_from_le_bytes(all);
            lemma_trailing_checksum(head@, check);
            assert(le_bytes(raw).subrange(0, 1) =~= seq![family]);
            assert(le_bytes(raw).subrange(1, 7) =~= serial@);
        }
        Address(raw)
    }
}

proof fn lemma_pack_unpack(b0: u8, b1: u8, b2: u8, b3: u8, b4: u8, b5: u8, b6: u8, b7: u8)
    by (bit_vector)
    ensures
        ({
            let raw = (b0 as u64) | (b1 as u64) << 8 | (b2 as u64) << 16 | (b3 as u64) << 24 | (
            b4 as u64) << 32 | (b5 as u64) << 40 | (b6 as u64) << 48 | (b7 as u64) << 56;
            &&& (raw & 0xff) as u8 == b0
            &&& ((raw >> 8) & 0xff) as u8 == b1
            &&& ((raw >> 16) & 0xff) as u8 == b2
            &&& ((raw >> 24) & 0xff) as u8 == b3
            &&& ((raw >> 32) & 0xff) as u8 == b4
            &&& ((raw >> 40) & 0xff) as u8 == b5
            &&& ((raw >> 48) & 0xff) as u8 == b6
            &&& ((raw >> 56) & 0xff) as u8 == b7
        }),
{
}

proof fn lemma_unpack_pack(raw: u64)
    by (bit_vector)
    ensures
        raw == (((raw & 0xff) as u8) as u64) | ((((raw >> 8) & 0xff) as u8) as u64) << 8 | ((((raw
            >> 16) & 0xff) as u8) as u64) << 16 | ((((raw >> 24) & 0xff) as u8) as u64) << 24 | ((((
        raw >> 32) & 0xff) as u8) as u64) << 32 | ((((raw >> 40) & 0xff) as u8) as u64) << 40 | ((((
        raw >> 48) & 0xff) as u8) as u64) << 48 | ((((raw >> 56) & 0xff) as u8) as u64) << 56,
{
}

/// Eight bytes packed into an address come out again unchanged.
pub proof fn lemma_le_bytes_of_from_le_bytes(b: Seq<u8>)
    requires
        b.len() == 8,
    ensures
        le_bytes(from_le_bytes(b)) == b,
{
    lemma_pack_unpack(b[0], b[1], b[2], b[3], b[4], b[5], b[6], b[7]);
    assert(le_bytes(from_le_bytes(b)) =~= b);
}

/// An address is determined by its eight bytes.
pub proof fn lemma_from_le_bytes_of_le_bytes(raw: u64)
    ensures
        le_bytes(raw).len() == 8,
        from_le_bytes(le_bytes(raw)) == raw,
{
    lemma_unpack_pack(raw);
}

/// Validation accepts exactly the addresses whose last byte is the checksum
/// of the seven bytes before it.
pub proof fn lemma_valid_iff_checksum_matches(raw: u64)
    ensures
        address_ok(raw) <==> le_bytes(raw)[7] == crc8(le_bytes(raw).subrange(0, 7)),
{
    let all = le_bytes(raw);
    assert(all.subrange(0, 7).push(all[7]) =~= all);
    lemma_trailing_checksum(all.subrange(0, 7), all[7]);
}

proof fn lemma_flip_changes_one_byte(raw: u64, bit: u64)
    by (bit_vector)
    requires
        bit < 64,
    ensures
        ({
            let bad = raw ^ (1u64 << bit);
            &&& (bit / 8 == 0) == ((bad & 0xff) as u8 != (raw & 0xff) as u8)
            &&& (bit / 8 == 1) == (((bad >> 8) & 0xff) as u8 != ((raw >> 8) & 0xff) as u8)
            &&& (bit / 8 == 2) == (((bad >> 16) & 0xff) as u8 != ((raw >> 16) & 0xff) as u8)
            &&& (bit / 8 == 3) == (((bad >> 24) & 0xff) as u8 != ((raw >> 24) & 0xff) as u8)
            &&& (bit / 8 == 4) == (((bad >> 32) & 0xff) as u8 != ((raw >> 32) & 0xff) as u8)
            &&& (bit / 8 == 5) == (((bad >> 40) & 0xff) as u8 != ((raw >> 40) & 0xff) as u8)
            &&& (bit / 8 == 6) == (((bad >> 48) & 0xff) as u8 != ((raw >> 48) & 0xff) as u8)
            &&& (bit / 8 == 7) == (((bad >> 56) & 0xff) as u8 != ((raw >> 56) & 0xff) as u8)
        }),
{
}

/// Flipping any single bit of a valid address makes it invalid.
pub proof fn lemma_bit_flip_rejected(raw: u64, bit: u64)
    requires
        address_ok(raw),
        bit < 64,
    ensures
        !address_ok(raw ^ (1u64 << bit)),
{
    let bad = raw ^ (1u64 << bit);
    lemma_flip_changes_one_byte(raw, bit);
    let at = (bit / 8) as int;
    assert(0 <= at < 8);
    lemma_single_byte_error_detected(le_bytes(raw), le_bytes(bad), at);
}

/// Two valid addresses that differ anywhere differ in at least two bytes,
/// or in other words: corrupting a single byte of a valid address is always
/// detected.
pub proof fn lemma_byte_corruption_rejected(raw: u64, bad: u64, at: int)
    requires
        address_ok(raw),
        0 <= at < 8,
        le_bytes(bad)[at] != le_bytes(raw)[at],
        forall|j: int| 0 <= j < 8 && j != at ==> le_bytes(bad)[j] == le_bytes(raw)[j],
    ensures
        !address_ok(bad),
{
    lemma_single_byte_error_detected(le_bytes(raw), le_bytes(bad), at);
}

} // verus!
