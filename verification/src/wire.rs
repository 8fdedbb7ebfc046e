//! The wire image of a frame.
//!
//! ```text
//! frame := FLAG , escaped(header) , escaped(payload...) ,
//!          escaped(crc_lo) , escaped(crc_hi) , FLAG
//! ```
//!
//! An octet that equals the flag or the escape octet travels as the escape
//! octet followed by the octet with bit five inverted.

use vstd::prelude::*;
use crate::crc::{
    crc_of, crc_step, crc_trailer, lemma_crc_of_push, lemma_crc_of_single, trailer_high,
    trailer_low, SFP_CRC_INIT,
};
use crate::packet::{header_octet, Frame};

verus! {

/// Escape octet: the octet after it has bit five inverted.
pub const SFP_ESC: u8 = 0x7d;

/// Flag octet: delimits frames.
pub const SFP_FLAG: u8 = 0x7e;

/// The bit that escaping inverts.
pub const SFP_ESC_FLIP_BIT: u8 = 0x20;

/// The octet must not travel as it is.
pub open spec fn is_reserved(octet: u8) -> bool {
    octet == SFP_FLAG || octet == SFP_ESC
}

/// How one octet travels.
pub open spec fn escaped(octet: u8) -> Seq<u8> {
    if is_reserved(octet) {
        seq![SFP_ESC, octet ^ SFP_ESC_FLIP_BIT]
    } else {
        seq![octet]
    }
}

/// How a run of octets travels: each escaped in turn.
pub open spec fn stuffed(octets: Seq<u8>) -> Seq<u8>
    decreases octets.len(),
{
    if octets.len() == 0 {
        Seq::empty()
    } else {
        stuffed(octets.drop_last()) + escaped(octets.last())
    }
}

/// The octets that the checksum of a frame covers: header, then payload.
pub open spec fn covered(frame: Frame) -> Seq<u8> {
    seq![frame.header()] + frame.payload()
}

/// Everything between the two flags before escaping: header, payload and
/// the trailer for the checksum of both.
pub open spec fn content(frame: Frame) -> Seq<u8> {
    covered(frame) + crc_trailer(crc_of(SFP_CRC_INIT, covered(frame)))
}

/// The wire image of a frame.
pub open spec fn encoded(frame: Frame) -> Seq<u8> {
    seq![SFP_FLAG] + stuffed(content(frame)) + seq![SFP_FLAG]
}

/// Escaping a concatenation is escaping its parts.
pub proof fn lemma_stuffed_concat(front: Seq<u8>, back: Seq<u8>)
    ensures
        stuffed(front + back) == stuffed(front) + stuffed(back),
    decreases back.len(),
{
    if back.len() == 0 {
        assert(front + back =~= front);
        assert(stuffed(front) + stuffed(back) =~= stuffed(front));
    } else {
        lemma_stuffed_concat(front, back.drop_last());
        assert((front + back).drop_last() =~= front + back.drop_last());
        assert((front + back).last() == back.last());
        assert(stuffed(front + back) =~= stuffed(front) + stuffed(back));
    }
}

/// Escaping a single octet.
pub proof fn lemma_stuffed_single(octet: u8)
    ensures
        stuffed(seq![octet]) == escaped(octet),
{
    let s = seq![octet];
    assert(s.drop_last() =~= Seq::<u8>::empty());
    assert(stuffed(s.drop_last()) =~= Seq::<u8>::empty());
    assert(stuffed(s) =~= escaped(octet));
}

/// What an escaped octet looks like: never a flag, and an escape octet
/// only as the first of a pair.
pub proof fn lemma_escaped_shape(octet: u8)
    ensures
        forall|i: int| 0 <= i < escaped(octet).len() ==> escaped(octet)[i] != SFP_FLAG,
        is_reserved(octet) ==> (octet ^ SFP_ESC_FLIP_BIT) != SFP_ESC,
        is_reserved(octet) ==> (octet ^ SFP_ESC_FLIP_BIT) ^ SFP_ESC_FLIP_BIT == octet,
{
    assert(0x7eu8 ^ 0x20u8 == 0x5eu8) by (bit_vector);
    assert(0x7du8 ^ 0x20u8 == 0x5du8) by (bit_vector);
    assert(0x5eu8 ^ 0x20u8 == 0x7eu8) by (bit_vector);
    assert(0x5du8 ^ 0x20u8 == 0x7du8) by (bit_vector);
}

/// No flag occurs inside escaped octets: between its two flags a wire
/// image holds none.
pub proof fn lemma_stuffed_has_no_flag(octets: Seq<u8>)
    ensures
        forall|i: int| 0 <= i < stuffed(octets).len() ==> stuffed(octets)[i] != SFP_FLAG,
    decreases octets.len(),
{
    if octets.len() > 0 {
        let front = stuffed(octets.drop_last());
        let back = escaped(octets.last());
        lemma_stuffed_has_no_flag(octets.drop_last());
        lemma_escaped_shape(octets.last());
        assert forall|i: int| 0 <= i < stuffed(octets).len() implies stuffed(octets)[i]
            != SFP_FLAG by {
            if i >= front.len() {
                assert(stuffed(octets)[i] == back[i - front.len()]);
            }
        }
    }
}

/// A wire image starts and ends with a flag and holds no other.
pub proof fn lemma_encoded_flags(frame: Frame)
    ensures
        encoded(frame).len() >= 5,
        encoded(frame).first() == SFP_FLAG,
        encoded(frame).last() == SFP_FLAG,
        forall|i: int| 0 < i < encoded(frame).len() - 1 ==> encoded(frame)[i] != SFP_FLAG,
{
    let body = stuffed(content(frame));
    lemma_stuffed_has_no_flag(content(frame));
    lemma_stuffed_len(content(frame));
    assert forall|i: int| 0 < i < encoded(frame).len() - 1 implies encoded(frame)[i]
        != SFP_FLAG by {
        assert(encoded(frame)[i] == body[i - 1]);
    }
}

/// Escaping never shortens and at most doubles.
pub proof fn lemma_stuffed_len(octets: Seq<u8>)
    ensures
        octets.len() <= stuffed(octets).len() <= 2 * octets.len(),
    decreases octets.len(),
{
    if octets.len() > 0 {
        lemma_stuffed_len(octets.drop_last());
    }
}

/// Octets none of which is reserved travel as they are.
pub proof fn lemma_stuffed_plain(octets: Seq<u8>)
    requires
        forall|i: int| 0 <= i < octets.len() ==> !is_reserved(#[trigger] octets[i]),
    ensures
        stuffed(octets) == octets,
    decreases octets.len(),
{
    if octets.len() > 0 {
        let front = octets.drop_last();
        assert forall|i: int| 0 <= i < front.len() implies !is_reserved(#[trigger] front[i]) by {
            assert(front[i] == octets[i]);
        }
        lemma_stuffed_plain(front);
        assert(!is_reserved(octets[octets.len() - 1]));
        assert(front + seq![octets.last()] =~= octets);
    } else {
        assert(stuffed(octets) =~= octets);
    }
}

/// The wire images of the three steps of the handshake and of the
/// disconnect notice, octet by octet.
pub proof fn lemma_control_frame_images()
    ensures
        encoded(Frame::Syn { seq: 0 }) == seq![0x7eu8, 0xc0u8, 0x74u8, 0x36u8, 0x7eu8],
        encoded(Frame::Syn { seq: 1 }) == seq![0x7eu8, 0xc1u8, 0xfdu8, 0x27u8, 0x7eu8],
        encoded(Frame::Syn { seq: 2 }) == seq![0x7eu8, 0xc2u8, 0x66u8, 0x15u8, 0x7eu8],
        encoded(Frame::Syn { seq: 3 }) == seq![0x7eu8, 0xc3u8, 0xefu8, 0x04u8, 0x7eu8],
{
    assert(header_octet(3, 0) == 0xc0 && header_octet(3, 1) == 0xc1 && header_octet(3, 2) == 0xc2
        && header_octet(3, 3) == 0xc3) by (bit_vector);
    assert(trailer_low(crc_step(0xffff, 0xc0)) == 0x74 && trailer_high(crc_step(0xffff, 0xc0))
        == 0x36) by (bit_vector);
    assert(trailer_low(crc_step(0xffff, 0xc1)) == 0xfd && trailer_high(crc_step(0xffff, 0xc1))
        == 0x27) by (bit_vector);
    assert(trailer_low(crc_step(0xffff, 0xc2)) == 0x66 && trailer_high(crc_step(0xffff, 0xc2))
        == 0x15) by (bit_vector);
    assert(trailer_low(crc_step(0xffff, 0xc3)) == 0xef && trailer_high(crc_step(0xffff, 0xc3))
        == 0x04) by (bit_vector);
    lemma_bare_frame_image(Frame::Syn { seq: 0 }, 0xc0, 0x74, 0x36);
    lemma_bare_frame_image(Frame::Syn { seq: 1 }, 0xc1, 0xfd, 0x27);
    lemma_bare_frame_image(Frame::Syn { seq: 2 }, 0xc2, 0x66, 0x15);
    lemma_bare_frame_image(Frame::Syn { seq: 3 }, 0xc3, 0xef, 0x04);
}

/// The wire image of a frame without payload whose header and trailer
/// hold no reserved octet: flag, header, trailer, flag.
pub proof fn lemma_bare_frame_image(frame: Frame, header: u8, low: u8, high: u8)
    requires
        frame.payload() == Seq::<u8>::empty(),
        frame.header() == header,
        trailer_low(crc_step(SFP_CRC_INIT, header)) == low,
        trailer_high(crc_step(SFP_CRC_INIT, header)) == high,
        !is_reserved(header),
        !is_reserved(low),
        !is_reserved(high),
    ensures
        encoded(frame) == seq![SFP_FLAG, header, low, high, SFP_FLAG],
{
    assert(covered(frame) =~= seq![header]);
    lemma_crc_of_single(SFP_CRC_INIT, header);
    assert(content(frame) =~= seq![header, low, high]);
    lemma_stuffed_plain(content(frame));
    assert(encoded(frame) =~= seq![SFP_FLAG, header, low, high, SFP_FLAG]);
}

/// The wire image of the user frame with number 0 that carries the two
/// octets `48 69`, and that of the user frame with number 5 that
/// carries a flag, which travels escaped as `7D 5E`.
pub proof fn lemma_user_frame_images()
    ensures
        encoded(Frame::Usr { seq: 0, payload: seq![0x48u8, 0x69u8] }) == seq![
            0x7eu8,
            0x00u8,
            0x48u8,
            0x69u8,
            0xadu8,
            0xb0u8,
            0x7eu8,
        ],
        encoded(Frame::Usr { seq: 5, payload: seq![0x7eu8] }) == seq![
            0x7eu8,
            0x05u8,
            0x7du8,
            0x5eu8,
            0x06u8,
            0xebu8,
            0x7eu8,
        ],
{
    assert(header_octet(0, 0) == 0x00 && header_octet(0, 5) == 0x05) by (bit_vector);
    assert(0x7eu8 ^ 0x20u8 == 0x5eu8) by (bit_vector);
    {
        let frame = Frame::Usr { seq: 0, payload: seq![0x48u8, 0x69u8] };
        let sum = crc_step(crc_step(crc_step(0xffff, 0x00), 0x48), 0x69);
        assert(trailer_low(crc_step(crc_step(crc_step(0xffff, 0x00), 0x48), 0x69)) == 0xad
            && trailer_high(crc_step(crc_step(crc_step(0xffff, 0x00), 0x48), 0x69)) == 0xb0)
            by (bit_vector);
        assert(covered(frame) =~= seq![0x00u8].push(0x48).push(0x69));
        lemma_crc_of_single(SFP_CRC_INIT, 0x00);
        lemma_crc_of_push(SFP_CRC_INIT, seq![0x00u8], 0x48);
        lemma_crc_of_push(SFP_CRC_INIT, seq![0x00u8].push(0x48), 0x69);
        assert(crc_of(SFP_CRC_INIT, covered(frame)) == sum);
        assert(content(frame) =~= seq![0x00u8, 0x48u8, 0x69u8, 0xadu8, 0xb0u8]);
        lemma_stuffed_plain(content(frame));
        assert(encoded(frame) =~= seq![
            0x7eu8,
            0x00u8,
            0x48u8,
            0x69u8,
            0xadu8,
            0xb0u8,
            0x7eu8,
        ]);
    }
    {
        let frame = Frame::Usr { seq: 5, payload: seq![0x7eu8] };
        let sum = crc_step(crc_step(0xffff, 0x05), 0x7e);
        assert(trailer_low(crc_step(crc_step(0xffff, 0x05), 0x7e)) == 0x06 && trailer_high(
            crc_step(crc_step(0xffff, 0x05), 0x7e),
        ) == 0xeb) by (bit_vector);
        assert(covered(frame) =~= seq![0x05u8].push(0x7e));
        lemma_crc_of_single(SFP_CRC_INIT, 0x05);
        lemma_crc_of_push(SFP_CRC_INIT, seq![0x05u8], 0x7e);
        assert(crc_of(SFP_CRC_INIT, covered(frame)) == sum);
        let head = seq![0x05u8];
        let tail = seq![0x06u8, 0xebu8];
        assert(content(frame) =~= head + seq![0x7eu8] + tail);
        lemma_stuffed_plain(head);
        lemma_stuffed_plain(tail);
        lemma_stuffed_single(0x7e);
        lemma_stuffed_concat(head, seq![0x7eu8]);
        lemma_stuffed_concat(head + seq![0x7eu8], tail);
        assert(encoded(frame) =~= seq![
            0x7eu8,
            0x05u8,
            0x7du8,
            0x5eu8,
            0x06u8,
            0xebu8,
            0x7eu8,
        ]);
    }
}

} // verus!
