//! The 16-bit CCITT checksum that protects every frame.
//!
//! A transmitter folds the header and payload octets into a running value
//! that starts at [`SFP_CRC_INIT`], inverts the result and appends it low
//! octet first.  A receiver folds everything it sees between two flags,
//! trailer included, and accepts the frame when the running value ends at
//! [`SFP_CRC_GOOD`].

use vstd::prelude::*;

verus! {

/// Running checksum before any octet of a frame has been folded in.
pub const SFP_CRC_INIT: u16 = 0xffff;

/// Running checksum of an intact frame once its trailer has been folded in.
pub const SFP_CRC_GOOD: u16 = 0xf0b8;

/// One step of the checksum: the running value `crc` after `octet`.
pub open spec fn crc_step(crc: u16, octet: u8) -> u16 {
    let a: u16 = (octet as u16) ^ (crc & 0xff);
    let b: u16 = a ^ ((a << 4) & 0xff);
    ((b << 8) | ((crc >> 8) & 0xff)) ^ (b >> 4) ^ (b << 3)
}

/// The running value `crc` after all of `bytes`, first octet first.
pub open spec fn crc_of(crc: u16, bytes: Seq<u8>) -> u16
    decreases bytes.len(),
{
    if bytes.len() == 0 {
        crc
    } else {
        crc_step(crc_of(crc, bytes.drop_last()), bytes.last())
    }
}

/// Low octet of the trailer sent for a final running value `crc`.
pub open spec fn trailer_low(crc: u16) -> u8 {
    ((!crc) & 0xff) as u8
}

/// High octet of the trailer sent for a final running value `crc`.
pub open spec fn trailer_high(crc: u16) -> u8 {
    (((!crc) >> 8) & 0xff) as u8
}

/// The two trailer octets in the order they travel: the complement of the
/// final running value, low octet first.
pub open spec fn crc_trailer(crc: u16) -> Seq<u8> {
    seq![trailer_low(crc), trailer_high(crc)]
}

/// Folds `byte` into the running checksum `crc`.
pub fn crc_update(crc: u16, byte: u8) -> (next: u16)
    ensures
        next == crc_step(crc, byte),
{
    let mut b: u16 = byte as u16;
    b ^= crc & 0xff;
    b ^= (b << 4) & 0x00ff;
    ((b << 8) | ((crc >> 8) & 0xff)) ^ (b >> 4) ^ (b << 3)
}

/// Folding a concatenation is folding its parts in turn.
pub proof fn lemma_crc_of_concat(crc: u16, front: Seq<u8>, back: Seq<u8>)
    ensures
        crc_of(crc, front + back) == crc_of(crc_of(crc, front), back),
    decreases back.len(),
{
    if back.len() == 0 {
        assert(front + back =~= front);
    } else {
        lemma_crc_of_concat(crc, front, back.drop_last());
        assert((front + back).drop_last() =~= front + back.drop_last());
        assert((front + back).last() == back.last());
    }
}

/// Folding a single octet is one step.
pub proof fn lemma_crc_of_single(crc: u16, octet: u8)
    ensures
        crc_of(crc, seq![octet]) == crc_step(crc, octet),
{
    let s = seq![octet];
    assert(s.drop_last() =~= Seq::<u8>::empty());
    assert(crc_of(crc, s.drop_last()) == crc);
}

/// Folding one octet more is one step more.
pub proof fn lemma_crc_of_push(crc: u16, bytes: Seq<u8>, octet: u8)
    ensures
        crc_of(crc, bytes.push(octet)) == crc_step(crc_of(crc, bytes), octet),
{
    assert(bytes.push(octet).drop_last() =~= bytes);
}

/// Whatever was folded in before, folding in the matching trailer leaves
/// the running value at [`SFP_CRC_GOOD`].
pub proof fn lemma_crc_residue(crc: u16)
    ensures
        crc_of(crc, crc_trailer(crc)) == SFP_CRC_GOOD,
{
    let lo = trailer_low(crc);
    let hi = trailer_high(crc);
    let t = crc_trailer(crc);
    assert(t.drop_last() =~= seq![lo]);
    lemma_crc_of_single(crc, lo);
    assert(crc_of(crc, t) == crc_step(crc_step(crc, lo), hi));
    assert(crc_step(crc_step(crc, trailer_low(crc)), trailer_high(crc)) == 0xf0b8u16)
        by (bit_vector);
}

/// A step is one-to-one in the running value and in the octet: two steps
/// that end at the same value and agree on one input agree on the other.
pub proof fn lemma_crc_step_injective(c1: u16, b1: u8, c2: u16, b2: u8)
    ensures
        crc_step(c1, b1) == crc_step(c2, b1) ==> c1 == c2,
        crc_step(c1, b1) == crc_step(c1, b2) ==> b1 == b2,
{
    assert(crc_step(c1, b1) == crc_step(c2, b1) ==> c1 == c2) by (bit_vector);
    assert(crc_step(c1, b1) == crc_step(c1, b2) ==> b1 == b2) by (bit_vector);
}

/// Two different running values stay different over any common
/// continuation.
pub proof fn lemma_crc_of_injective(c1: u16, c2: u16, bytes: Seq<u8>)
    requires
        c1 != c2,
    ensures
        crc_of(c1, bytes) != crc_of(c2, bytes),
    decreases bytes.len(),
{
    if bytes.len() > 0 {
        lemma_crc_of_injective(c1, c2, bytes.drop_last());
        lemma_crc_step_injective(
            crc_of(c1, bytes.drop_last()),
            bytes.last(),
            crc_of(c2, bytes.drop_last()),
            bytes.last(),
        );
    }
}

/// Replacing one octet of a sequence by a different one always changes the
/// checksum of the whole.
pub proof fn lemma_crc_detects_substitution(crc: u16, bytes: Seq<u8>, at: int, octet: u8)
    requires
        0 <= at < bytes.len(),
        octet != bytes[at],
    ensures
        crc_of(crc, bytes.update(at, octet)) != crc_of(crc, bytes),
{
    let front = bytes.take(at);
    let back = bytes.skip(at + 1);
    assert(bytes =~= front + seq![bytes[at]] + back);
    assert(bytes.update(at, octet) =~= front + seq![octet] + back);
    let c = crc_of(crc, front);
    lemma_crc_of_concat(crc, front, seq![bytes[at]]);
    lemma_crc_of_concat(crc, front, seq![octet]);
    lemma_crc_of_single(c, bytes[at]);
    lemma_crc_of_single(c, octet);
    lemma_crc_step_injective(c, bytes[at], c, octet);
    lemma_crc_of_concat(crc, front + seq![bytes[at]], back);
    lemma_crc_of_concat(crc, front + seq![octet], back);
    lemma_crc_of_injective(crc_step(c, bytes[at]), crc_step(c, octet), back);
}

} // verus!
