//! The report checksum.
//!
//! Plain XOR accumulate with seed 0: no table, no reflection, no final XOR. The
//! covered range is byte 2 through byte 87 inclusive. Byte 0 (the status), byte
//! 1 (the transaction id), byte 88 (the checksum itself) and byte 89 (reserved)
//! are outside it.
//!
//! Because byte 1 is not covered, a report that carries a bogus transaction id
//! is still checksum-valid, and nothing that looks at the checksum alone can
//! notice it.
use vstd::prelude::*;

use crate::proto::report::REPORT_LEN;

verus! {

/// XOR of all of `bytes`, seed 0.
pub open spec fn xor_all(bytes: Seq<u8>) -> u8
    decreases bytes.len(),
{
    if bytes.len() == 0 {
        0
    } else {
        xor_all(bytes.drop_last()) ^ bytes.last()
    }
}

/// The checksum of a frame: XOR of bytes 2 through 87.
pub open spec fn checksum(frame: Seq<u8>) -> u8 {
    xor_all(frame.subrange(2, 88))
}

/// Whether byte 88 of `frame` is its checksum.
pub open spec fn checksum_valid(frame: Seq<u8>) -> bool {
    frame[88] == checksum(frame)
}

/// XOR of `bytes[2..88]` (indices 2..=87 inclusive), seed 0.
pub fn crc(bytes: &[u8; REPORT_LEN]) -> (sum: u8)
    ensures
        sum == checksum(bytes@),
{
    let mut acc: u8 = 0;
    let mut i: usize = 2;
    assert(bytes@.subrange(2, 2) =~= Seq::<u8>::empty());
    while i < 88
        invariant
            2 <= i <= 88,
            acc == xor_all(bytes@.subrange(2, i as int)),
        decreases 88 - i,
    {
        assert(bytes@.subrange(2, i + 1).drop_last() =~= bytes@.subrange(2, i as int));
        acc = acc ^ bytes[i];
        i = i + 1;
    }
    acc
}

/// True iff the checksum byte at index 88 matches [`crc`].
pub fn verify_crc(bytes: &[u8; REPORT_LEN]) -> (valid: bool)
    ensures
        valid == checksum_valid(bytes@),
{
    bytes[88] == crc(bytes)
}

/// The checksum depends on bytes 2 through 87 and on nothing else: two frames
/// that agree there have the same checksum, whatever their status, transaction
/// id, checksum byte and reserved byte are.
pub proof fn law_checksum_ignores_uncovered_bytes(a: Seq<u8>, b: Seq<u8>)
    requires
        a.len() == REPORT_LEN,
        b.len() == REPORT_LEN,
        forall|i: int| 2 <= i < 88 ==> a[i] == b[i],
    ensures
        checksum(a) == checksum(b),
{
    assert(a.subrange(2, 88) =~= b.subrange(2, 88));
}

/// Changing exactly one covered byte always changes the checksum.
pub proof fn law_checksum_notices_one_covered_byte(frame: Seq<u8>, at: int, byte: u8)
    requires
        frame.len() == REPORT_LEN,
        2 <= at < 88,
        byte != frame[at],
    ensures
        checksum(frame.update(at, byte)) != checksum(frame),
        checksum(frame.update(at, byte)) == checksum(frame) ^ frame[at] ^ byte,
{
    let covered = frame.subrange(2, 88);
    assert(frame.update(at, byte).subrange(2, 88) =~= covered.update(at - 2, byte));
    lemma_xor_update(covered, at - 2, byte);
    let sum = xor_all(covered);
    let old_byte = frame[at];
    assert(byte != old_byte ==> (sum ^ old_byte) ^ byte != sum) by (bit_vector);
}

/// Updating one byte toggles the XOR by the byte that goes and the one that
/// comes.
proof fn lemma_xor_update(bytes: Seq<u8>, at: int, byte: u8)
    requires
        0 <= at < bytes.len(),
    ensures
        xor_all(bytes.update(at, byte)) == xor_all(bytes) ^ bytes[at] ^ byte,
    decreases bytes.len(),
{
    let front = xor_all(bytes.drop_last());
    let last = bytes.last();
    let gone = bytes[at];
    if at == bytes.len() - 1 {
        assert(bytes.update(at, byte).drop_last() =~= bytes.drop_last());
        assert(((front ^ gone) ^ gone) ^ byte == front ^ byte) by (bit_vector);
    } else {
        assert(bytes.update(at, byte).drop_last() =~= bytes.drop_last().update(at, byte));
        lemma_xor_update(bytes.drop_last(), at, byte);
        assert(((front ^ gone) ^ byte) ^ last == ((front ^ last) ^ gone) ^ byte) by (bit_vector);
    }
}

/// A frame whose covered bytes are all zero has checksum zero.
pub proof fn law_checksum_of_zeros(frame: Seq<u8>)
    requires
        frame.len() == REPORT_LEN,
        forall|i: int| 2 <= i < 88 ==> frame[i] == 0,
    ensures
        checksum(frame) == 0,
{
    lemma_xor_of_zeros(frame.subrange(2, 88));
}

/// The XOR of zeros is zero.
proof fn lemma_xor_of_zeros(bytes: Seq<u8>)
    requires
        forall|i: int| 0 <= i < bytes.len() ==> bytes[i] == 0,
    ensures
        xor_all(bytes) == 0,
    decreases bytes.len(),
{
    if bytes.len() > 0 {
        lemma_xor_of_zeros(bytes.drop_last());
        assert(0u8 ^ 0u8 == 0u8) by (bit_vector);
    }
}

/// A frame is checksum-valid exactly when byte 88 is its checksum.
pub proof fn law_validity_is_byte_88(frame: Seq<u8>, byte: u8)
    requires
        frame.len() == REPORT_LEN,
    ensures
        checksum_valid(frame.update(88, byte)) <==> byte == checksum(frame),
{
    law_checksum_ignores_uncovered_bytes(frame, frame.update(88, byte));
}

}
