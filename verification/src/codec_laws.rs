//! What holds of the framer: decoding undoes encoding, escaping is
//! transparent, chunking does not matter, and a damaged octet is caught.
//!
//! All of it is stated over [`CodecState::run`], the iteration of the
//! transition that [`crate::codec::Codec::deliver`] takes, and over
//! [`encoded`], the wire image that [`crate::codec::Codec::encode`]
//! produces.

use vstd::prelude::*;
use crate::codec::CodecState;
use crate::crc::{
    crc_of, crc_trailer, lemma_crc_detects_substitution, lemma_crc_of_concat, lemma_crc_residue,
    SFP_CRC_GOOD, SFP_CRC_INIT,
};
use crate::packet::{lemma_frame_from_parts, Frame, SfpError};
use crate::wire::{
    content, covered, encoded, escaped, is_reserved, lemma_escaped_shape, lemma_stuffed_len,
    stuffed, SFP_ESC, SFP_ESC_FLIP_BIT, SFP_FLAG,
};

verus! {

/// The octets of `chunks` one after the other.
pub open spec fn joined(chunks: Seq<Seq<u8>>) -> Seq<u8>
    decreases chunks.len(),
{
    if chunks.len() == 0 {
        Seq::empty()
    } else {
        joined(chunks.drop_last()) + chunks.last()
    }
}

impl CodecState {
    /// The state after frame content `octets`, escaping already undone,
    /// has been taken in octet by octet.
    pub open spec fn absorb(self, octets: Seq<u8>) -> CodecState
        decreases octets.len(),
    {
        if octets.len() == 0 {
            self
        } else {
            self.absorb(octets.drop_last()).accept(octets.last())
        }
    }

    /// The state after the octets of each chunk in turn, and everything
    /// completed on the way.
    pub open spec fn run_chunks(self, chunks: Seq<Seq<u8>>) -> (
        CodecState,
        Seq<Result<Frame, SfpError>>,
    )
        decreases chunks.len(),
    {
        if chunks.len() == 0 {
            (self, Seq::empty())
        } else {
            let before = self.run_chunks(chunks.drop_last());
            let last = before.0.run(chunks.last());
            (last.0, before.1 + last.1)
        }
    }
}

/// Running a single octet is one transition.
pub proof fn lemma_run_single(state: CodecState, octet: u8)
    ensures
        state.run(seq![octet]).0 == state.step(octet).0,
        state.run(seq![octet]).1 == match state.step(octet).1 {
            Some(event) => seq![event],
            None => Seq::empty(),
        },
{
    let s = seq![octet];
    assert(s.drop_last() =~= Seq::<u8>::empty());
    assert(state.run(s.drop_last()) == (state, Seq::<Result<Frame, SfpError>>::empty()));
    match state.step(octet).1 {
        Some(event) => {
            assert(Seq::<Result<Frame, SfpError>>::empty().push(event) =~= seq![event]);
        },
        None => {},
    }
}

/// Running a concatenation is running its parts in turn: the second part
/// starts where the first ended, and the events follow one another.
pub proof fn lemma_run_concat(state: CodecState, front: Seq<u8>, back: Seq<u8>)
    ensures
        state.run(front + back).0 == state.run(front).0.run(back).0,
        state.run(front + back).1 == state.run(front).1 + state.run(front).0.run(back).1,
    decreases back.len(),
{
    let mid = state.run(front);
    if back.len() == 0 {
        assert(front + back =~= front);
        assert(mid.1 + mid.0.run(back).1 =~= mid.1);
    } else {
        lemma_run_concat(state, front, back.drop_last());
        assert((front + back).drop_last() =~= front + back.drop_last());
        assert((front + back).last() == back.last());
        let before = mid.0.run(back.drop_last());
        let last = before.0.step(back.last());
        match last.1 {
            Some(event) => {
                assert((mid.1 + before.1).push(event) =~= mid.1 + before.1.push(event));
            },
            None => {},
        }
    }
}

/// However a stream is cut into chunks, feeding the chunks one after the
/// other ends in the same state and completes the same frames and errors
/// as feeding the stream octet by octet.
pub proof fn lemma_chunking_is_irrelevant(state: CodecState, chunks: Seq<Seq<u8>>)
    ensures
        state.run_chunks(chunks) == state.run(joined(chunks)),
    decreases chunks.len(),
{
    if chunks.len() > 0 {
        lemma_chunking_is_irrelevant(state, chunks.drop_last());
        lemma_run_concat(state, joined(chunks.drop_last()), chunks.last());
    }
}

/// The decoder undoes the escaping of one octet: the escaped form of any
/// octet, reserved or not, is taken in as that octet and completes
/// nothing.
pub proof fn lemma_run_escaped(state: CodecState, octet: u8)
    requires
        !state.escaping,
    ensures
        state.run(escaped(octet)) == (state.accept(octet), Seq::<Result<Frame, SfpError>>::empty()),
{
    lemma_escaped_shape(octet);
    if is_reserved(octet) {
        let flipped = octet ^ SFP_ESC_FLIP_BIT;
        assert(flipped != SFP_FLAG) by {
            assert(escaped(octet)[1] == flipped);
        }
        assert(escaped(octet) =~= seq![SFP_ESC] + seq![flipped]);
        lemma_run_concat(state, seq![SFP_ESC], seq![flipped]);
        lemma_run_single(state, SFP_ESC);
        let armed = CodecState { escaping: true, ..state };
        lemma_run_single(armed, flipped);
        assert(armed.accept(octet) == state.accept(octet));
        assert(Seq::<Result<Frame, SfpError>>::empty() + Seq::<Result<Frame, SfpError>>::empty()
            =~= Seq::<Result<Frame, SfpError>>::empty());
    } else {
        lemma_run_single(state, octet);
    }
}

/// Escaping is transparent: whatever octets a run of content holds, flags
/// and escape octets among them, its escaped form is taken in as exactly
/// that content and completes nothing.
pub proof fn lemma_run_stuffed(state: CodecState, octets: Seq<u8>)
    requires
        !state.escaping,
    ensures
        state.run(stuffed(octets)) == (
            state.absorb(octets),
            Seq::<Result<Frame, SfpError>>::empty(),
        ),
        !state.absorb(octets).escaping,
    decreases octets.len(),
{
    if octets.len() > 0 {
        lemma_run_stuffed(state, octets.drop_last());
        lemma_run_concat(state, stuffed(octets.drop_last()), escaped(octets.last()));
        lemma_run_escaped(state.absorb(octets.drop_last()), octets.last());
        assert(Seq::<Result<Frame, SfpError>>::empty() + Seq::<Result<Frame, SfpError>>::empty()
            =~= Seq::<Result<Frame, SfpError>>::empty());
    }
}

/// What a decoder that awaited a header holds after it has taken in a
/// header and what follows it.
pub proof fn lemma_absorb_frame(state: CodecState, octets: Seq<u8>)
    requires
        !state.receiving,
        octets.len() >= 1,
    ensures
        state.absorb(octets) == (CodecState {
            header: octets[0],
            crc: crc_of(state.crc, octets),
            receiving: true,
            escaping: false,
            body: state.body + octets.skip(1),
        }),
    decreases octets.len(),
{
    if octets.len() == 1 {
        assert(octets.drop_last() =~= Seq::<u8>::empty());
        assert(state.absorb(octets.drop_last()) == state);
        assert(crc_of(state.crc, octets.drop_last()) == state.crc);
        assert(state.body + octets.skip(1) =~= state.body);
    } else {
        lemma_absorb_frame(state, octets.drop_last());
        assert(octets.drop_last()[0] == octets[0]);
        assert((state.body + octets.drop_last().skip(1)).push(octets.last()) =~= state.body
            + octets.skip(1));
    }
}

/// The checksum over the whole content of a frame, trailer included, is
/// [`SFP_CRC_GOOD`].
pub proof fn lemma_content_checksum(frame: Frame)
    ensures
        crc_of(SFP_CRC_INIT, content(frame)) == SFP_CRC_GOOD,
        content(frame).len() == frame.payload().len() + 3,
        content(frame)[0] == frame.header(),
        content(frame).skip(1).take(content(frame).len() - 3) == frame.payload(),
{
    let sum = crc_of(SFP_CRC_INIT, covered(frame));
    lemma_crc_of_concat(SFP_CRC_INIT, covered(frame), crc_trailer(sum));
    lemma_crc_residue(sum);
    assert(content(frame).skip(1).take(content(frame).len() - 3) =~= frame.payload());
}

/// Decoding undoes encoding.  A decoder that awaits a header, in whatever
/// state an earlier frame or failure left it, and is fed the wire image of
/// a well-formed frame, completes exactly that frame on the closing flag
/// and nothing before, and ends as a new decoder.  Nothing is asked of the
/// payload: flags and escape octets in it come through unchanged.
pub proof fn lemma_decode_encoded(state: CodecState, frame: Frame)
    requires
        !state.receiving,
        frame.wf(),
    ensures
        state.run(encoded(frame)) == (CodecState::initial(), seq![Ok::<Frame, SfpError>(frame)]),
        encoded(frame).last() == SFP_FLAG,
        state.run(encoded(frame).drop_last()).1 == Seq::<Result<Frame, SfpError>>::empty(),
        state.run(encoded(frame).drop_last()).0.step(SFP_FLAG) == (
            CodecState::initial(),
            Some(Ok::<Frame, SfpError>(frame)),
        ),
{
    let inner = content(frame);
    let open = seq![SFP_FLAG];
    let fresh = CodecState::initial();
    let none = Seq::<Result<Frame, SfpError>>::empty();
    lemma_content_checksum(frame);
    lemma_run_single(state, SFP_FLAG);
    lemma_run_stuffed(fresh, inner);
    lemma_absorb_frame(fresh, inner);
    let full = fresh.absorb(inner);
    assert(full.body =~= inner.skip(1));
    assert(full.body.take(full.body.len() - 2) =~= frame.payload());
    lemma_frame_from_parts(frame, frame.payload());
    lemma_run_single(full, SFP_FLAG);
    lemma_run_concat(state, open, stuffed(inner));
    lemma_run_concat(state, open + stuffed(inner), open);
    assert(none + none =~= none);
    assert(none + seq![Ok::<Frame, SfpError>(frame)] =~= seq![Ok::<Frame, SfpError>(frame)]);
    assert(encoded(frame).drop_last() =~= open + stuffed(inner));
}

/// Two well-formed frames with the same wire image are the same frame.
pub proof fn lemma_encoded_is_one_to_one(first: Frame, second: Frame)
    requires
        first.wf(),
        second.wf(),
        encoded(first) == encoded(second),
    ensures
        first == second,
{
    lemma_decode_encoded(CodecState::initial(), first);
    lemma_decode_encoded(CodecState::initial(), second);
    let events = CodecState::initial().run(encoded(first)).1;
    assert(events[0] == Ok::<Frame, SfpError>(first));
    assert(events[0] == Ok::<Frame, SfpError>(second));
}

/// Escape transparency for user data: a user frame whose payload holds
/// any octets whatever, flags and escape octets included, decodes to a
/// frame with exactly that payload.
pub proof fn lemma_payload_transparent(seq: u8, payload: Seq<u8>)
    requires
        seq <= 0x3f,
    ensures
        CodecState::initial().run(encoded(Frame::Usr { seq, payload })).1 == seq![
            Ok::<Frame, SfpError>(Frame::Usr { seq, payload }),
        ],
        CodecState::initial().run(encoded(Frame::Rtx { seq, payload })).1 == seq![
            Ok::<Frame, SfpError>(Frame::Rtx { seq, payload }),
        ],
{
    lemma_decode_encoded(CodecState::initial(), Frame::Usr { seq, payload });
    lemma_decode_encoded(CodecState::initial(), Frame::Rtx { seq, payload });
}

/// A transition completes only what closing a frame completes: a frame,
/// `DataTooShort` or `CrcFailed`, never `UnknownHeader`, and only on a
/// flag while a body is being received.  Whenever it completes
/// anything, no frame is in flight any more: the decoder awaits a
/// header, no escape is pending, and the checksum is at its initial
/// value.  After a frame the decoder is as new; after either error it
/// is soft-reset.
pub proof fn lemma_step_outcomes(state: CodecState, octet: u8)
    ensures
        match state.step(octet).1 {
            None => true,
            Some(Ok(_)) => state.step(octet).0 == CodecState::initial(),
            Some(Err(error)) => {
                &&& error == SfpError::DataTooShort || error == SfpError::CrcFailed
                &&& error == SfpError::DataTooShort <==> state.body.len() < 2
                &&& state.step(octet).0 == state.soft_reset()
            },
        },
        state.step(octet).1 is Some <==> octet == SFP_FLAG && state.receiving,
        state.step(octet).1 is Some ==> {
            &&& !state.step(octet).0.receiving
            &&& !state.step(octet).0.escaping
            &&& state.step(octet).0.crc == SFP_CRC_INIT
            &&& state.step(octet).0.header == 0
        },
{
}

/// A failed frame costs nothing but itself.  After the flag that closed
/// a frame, whatever came of it (the frame, `DataTooShort` or
/// `CrcFailed`), the wire image of any well-formed frame is decoded as
/// by a new decoder: nothing is completed before its closing flag, and
/// that flag completes exactly the frame.
pub proof fn lemma_recovers_after_close(state: CodecState, frame: Frame)
    requires
        state.receiving,
        frame.wf(),
    ensures
        state.body.len() < 2 ==> state.step(SFP_FLAG).1 == Some(
            Err::<Frame, SfpError>(SfpError::DataTooShort),
        ),
        state.body.len() >= 2 && state.crc != SFP_CRC_GOOD ==> state.step(SFP_FLAG).1 == Some(
            Err::<Frame, SfpError>(SfpError::CrcFailed),
        ),
        state.step(SFP_FLAG).0.run(encoded(frame)) == (
            CodecState::initial(),
            seq![Ok::<Frame, SfpError>(frame)],
        ),
{
    lemma_decode_encoded(state.step(SFP_FLAG).0, frame);
}

/// In escaped content, replacing one octet that is not an escape octet
/// by another that is neither flag nor escape octet replaces exactly one
/// octet of the content that the decoder takes in.
///
/// Returns the place in the content and the octet that now stands there.
pub proof fn lemma_damaged_stuffed(state: CodecState, octets: Seq<u8>, at: int, octet: u8) -> (hit:
    (int, u8))
    requires
        !state.escaping,
        0 <= at < stuffed(octets).len(),
        stuffed(octets)[at] != SFP_ESC,
        !is_reserved(octet),
        octet != stuffed(octets)[at],
    ensures
        0 <= hit.0 < octets.len(),
        hit.1 != octets[hit.0],
        state.run(stuffed(octets).update(at, octet)) == (
            state.absorb(octets.update(hit.0, hit.1)),
            Seq::<Result<Frame, SfpError>>::empty(),
        ),
    decreases octets.len(),
{
    let none = Seq::<Result<Frame, SfpError>>::empty();
    assert(none + none =~= none);
    let front = octets.drop_last();
    let last = octets.last();
    let wire_front = stuffed(front);
    if at < wire_front.len() {
        let hit = lemma_damaged_stuffed(state, front, at, octet);
        assert(stuffed(octets).update(at, octet) =~= wire_front.update(at, octet) + escaped(last));
        lemma_run_concat(state, wire_front.update(at, octet), escaped(last));
        let mid = state.absorb(front.update(hit.0, hit.1));
        assert(!mid.escaping) by {
            lemma_run_stuffed(state, front.update(hit.0, hit.1));
        }
        lemma_run_escaped(mid, last);
        assert(octets.update(hit.0, hit.1).drop_last() =~= front.update(hit.0, hit.1));
        hit
    } else {
        lemma_run_stuffed(state, front);
        let mid = state.absorb(front);
        assert(octets.update(front.len() as int, last).drop_last() =~= front);
        if is_reserved(last) {
            // The pair is the escape octet and the flipped octet; only the
            // second may be replaced.
            assert(at == wire_front.len() + 1);
            let taken = octet ^ SFP_ESC_FLIP_BIT;
            assert(taken != last) by {
                let flipped = last ^ SFP_ESC_FLIP_BIT;
                assert(octet != flipped);
                assert(octet != flipped ==> octet ^ 0x20u8 != flipped ^ 0x20u8) by (bit_vector);
                lemma_escaped_shape(last);
            }
            assert(stuffed(octets).update(at, octet) =~= wire_front + (seq![SFP_ESC] + seq![
                octet,
            ]));
            lemma_run_concat(state, wire_front, seq![SFP_ESC] + seq![octet]);
            lemma_run_concat(mid, seq![SFP_ESC], seq![octet]);
            lemma_run_single(mid, SFP_ESC);
            let armed = CodecState { escaping: true, ..mid };
            lemma_run_single(armed, octet);
            assert(armed.accept(taken) == mid.accept(taken));
            assert(octets.update(front.len() as int, taken).drop_last() =~= front);
            (front.len() as int, taken)
        } else {
            assert(at == wire_front.len());
            assert(stuffed(octets).update(at, octet) =~= wire_front + seq![octet]);
            lemma_run_concat(state, wire_front, seq![octet]);
            lemma_run_single(mid, octet);
            assert(octets.update(front.len() as int, octet).drop_last() =~= front);
            (front.len() as int, octet)
        }
    }
}

/// A damaged octet is caught.  Take the wire image of a well-formed frame
/// and replace one octet between its flags, not an escape octet, by a
/// different octet that is neither flag nor escape octet, as the flip of
/// one bit does unless it makes or unmakes a reserved octet.  A decoder
/// that awaits a header then completes nothing but `CrcFailed`, on the
/// closing flag.
pub proof fn lemma_damaged_octet_detected(state: CodecState, frame: Frame, at: int, octet: u8)
    requires
        !state.receiving,
        frame.wf(),
        0 < at < encoded(frame).len() - 1,
        encoded(frame)[at] != SFP_ESC,
        !is_reserved(octet),
        octet != encoded(frame)[at],
    ensures
        state.run(encoded(frame).update(at, octet)).1 == seq![
            Err::<Frame, SfpError>(SfpError::CrcFailed),
        ],
        encoded(frame).update(at, octet).last() == SFP_FLAG,
        state.run(encoded(frame).update(at, octet).drop_last()).1 == Seq::<
            Result<Frame, SfpError>,
        >::empty(),
        state.run(encoded(frame).update(at, octet).drop_last()).0.step(SFP_FLAG).1 == Some(
            Err::<Frame, SfpError>(SfpError::CrcFailed),
        ),
        !state.run(encoded(frame).update(at, octet)).0.receiving,
{
    let inner = content(frame);
    let open = seq![SFP_FLAG];
    let fresh = CodecState::initial();
    let none = Seq::<Result<Frame, SfpError>>::empty();
    let failed = seq![Err::<Frame, SfpError>(SfpError::CrcFailed)];
    lemma_content_checksum(frame);
    lemma_stuffed_len(inner);
    assert(encoded(frame)[at] == stuffed(inner)[at - 1]);
    let hit = lemma_damaged_stuffed(fresh, inner, at - 1, octet);
    let damaged = inner.update(hit.0, hit.1);
    lemma_crc_detects_substitution(SFP_CRC_INIT, inner, hit.0, hit.1);
    lemma_absorb_frame(fresh, damaged);
    let full = fresh.absorb(damaged);
    assert(full.body =~= damaged.skip(1));
    lemma_run_single(state, SFP_FLAG);
    lemma_run_single(full, SFP_FLAG);
    let wire = stuffed(inner).update(at - 1, octet);
    assert(encoded(frame).update(at, octet) =~= open + wire + open);
    lemma_run_concat(state, open, wire);
    lemma_run_concat(state, open + wire, open);
    assert(none + none =~= none);
    assert(none + failed =~= failed);
    assert(encoded(frame).update(at, octet).drop_last() =~= open + wire);
}

} // verus!
