//! The framer: octet stream to frames and back.
//!
//! The decoder is a state machine that takes one octet at a time.  Its
//! state is modelled by [`CodecState`] and its transition by
//! [`CodecState::step`]; [`Codec::deliver`] is proved to take exactly that
//! transition.  The encoder is proved to produce the wire image
//! [`encoded`].

use vstd::prelude::*;
use crate::crc::{
    crc_of, crc_step, crc_update, lemma_crc_of_single, trailer_high, trailer_low, SFP_CRC_GOOD,
    SFP_CRC_INIT,
};
use crate::packet::{
    lemma_header_parts, Frame, SfpError, SfpPacket, SfpResult, FRAMETYPE_NAK, FRAMETYPE_RTX,
    FRAMETYPE_SYN, FRAMETYPE_USR,
};
use crate::wire::{
    covered, encoded, escaped, lemma_stuffed_concat, lemma_stuffed_single, stuffed, SFP_ESC,
    SFP_ESC_FLIP_BIT, SFP_FLAG,
};

verus! {

/// The decoder's state.
pub struct CodecState {
    /// Header octet of the frame being received.
    pub header: u8,
    /// Checksum over everything received of the current frame.
    pub crc: u16,
    /// A header has been seen and the body is being received; otherwise
    /// the decoder awaits a header.
    pub receiving: bool,
    /// The last octet was the escape octet.
    pub escaping: bool,
    /// Body octets received so far, the two trailer octets among them.
    pub body: Seq<u8>,
}

impl CodecState {
    /// The state of a new decoder, and the state after a full reset.
    pub open spec fn initial() -> CodecState {
        CodecState {
            header: 0,
            crc: SFP_CRC_INIT,
            receiving: false,
            escaping: false,
            body: Seq::empty(),
        }
    }

    /// Clears header, checksum and both flags; the body octets stay.
    pub open spec fn soft_reset(self) -> CodecState {
        CodecState {
            header: 0,
            crc: SFP_CRC_INIT,
            receiving: false,
            escaping: false,
            body: self.body,
        }
    }

    /// Takes in one octet of frame content, after escaping has been
    /// undone: it enters the checksum, and is the header if none has been
    /// seen, else the next body octet.
    pub open spec fn accept(self, octet: u8) -> CodecState {
        if self.receiving {
            CodecState {
                crc: crc_step(self.crc, octet),
                escaping: false,
                body: self.body.push(octet),
                ..self
            }
        } else {
            CodecState {
                header: octet,
                crc: crc_step(self.crc, octet),
                receiving: true,
                escaping: false,
                ..self
            }
        }
    }

    /// Closes the frame being received.
    ///
    /// - Fewer than two body octets: `DataTooShort`, and a soft reset.
    /// - Else a checksum other than [`SFP_CRC_GOOD`]: `CrcFailed`, and a
    ///   soft reset.
    /// - Else the frame that the header and the body without its two
    ///   trailer octets stand for, and a full reset.
    ///
    /// Whatever the outcome, the decoder then awaits a header with no
    /// escape pending and the checksum at its initial value.
    pub open spec fn close(self) -> (CodecState, Result<Frame, SfpError>) {
        if self.body.len() < 2 {
            (self.soft_reset(), Err(SfpError::DataTooShort))
        } else if self.crc != SFP_CRC_GOOD {
            (self.soft_reset(), Err(SfpError::CrcFailed))
        } else {
            (
                CodecState::initial(),
                Ok(Frame::from_parts(self.header, self.body.take(self.body.len() - 2))),
            )
        }
    }

    /// The transition for one octet from the transport, and the frame or
    /// framing error that it completes, if any.
    ///
    /// - A flag while a body is being received closes the frame.
    /// - A flag while a header is awaited resynchronises: the decoder
    ///   starts afresh, and body octets left behind by a failed frame are
    ///   dropped.
    /// - The escape octet is remembered and enters nothing.
    /// - Any other octet, with bit five inverted if it follows the escape
    ///   octet, is frame content.
    pub open spec fn step(self, octet: u8) -> (CodecState, Option<Result<Frame, SfpError>>) {
        if octet == SFP_FLAG {
            if self.receiving {
                (self.close().0, Some(self.close().1))
            } else {
                (CodecState::initial(), None)
            }
        } else if octet == SFP_ESC {
            (CodecState { escaping: true, ..self }, None)
        } else if self.escaping {
            (self.accept(octet ^ SFP_ESC_FLIP_BIT), None)
        } else {
            (self.accept(octet), None)
        }
    }

    /// The state after a run of octets, and the frames and framing errors
    /// completed on the way, in order.
    pub open spec fn run(self, octets: Seq<u8>) -> (CodecState, Seq<Result<Frame, SfpError>>)
        decreases octets.len(),
    {
        if octets.len() == 0 {
            (self, Seq::empty())
        } else {
            let before = self.run(octets.drop_last());
            let last = before.0.step(octets.last());
            match last.1 {
                Some(event) => (last.0, before.1.push(event)),
                None => (last.0, before.1),
            }
        }
    }
}

#[derive(Clone, Copy, PartialEq, Eq, Structural)]
enum FrameState {
    AwaitingHeader,
    ReceivingBody,
}

#[derive(Clone, Copy, PartialEq, Eq, Structural)]
enum EscState {
    Normal,
    Escaping,
}

/// Encoder and decoder of frames.
pub struct Codec {
    header: u8,
    crc: u16,
    state: FrameState,
    esc_state: EscState,
    buf: Vec<u8>,
}

impl View for Codec {
    type V = CodecState;

    closed spec fn view(&self) -> CodecState {
        CodecState {
            header: self.header,
            crc: self.crc,
            receiving: self.state == FrameState::ReceivingBody,
            escaping: self.esc_state == EscState::Escaping,
            body: self.buf@,
        }
    }
}

/// Appends `octet` to `out` as it travels on the wire.
fn push_escaped(out: &mut Vec<u8>, octet: u8)
    ensures
        final(out)@ == old(out)@ + escaped(octet),
{
    if octet == SFP_ESC || octet == SFP_FLAG {
        out.push(SFP_ESC);
        out.push(octet ^ SFP_ESC_FLIP_BIT);
    } else {
        out.push(octet);
    }
    assert(out@ =~= old(out)@ + escaped(octet));
}

impl Codec {
    /// A codec that awaits the header of its first frame.
    pub fn new() -> (codec: Codec)
        ensures
            codec@ == CodecState::initial(),
    {
        Codec {
            header: 0,
            crc: SFP_CRC_INIT,
            state: FrameState::AwaitingHeader,
            esc_state: EscState::Normal,
            buf: Vec::new(),
        }
    }

    /// Takes one octet from the transport.  Returns `None` while the
    /// frame is incomplete, the frame when a flag closes an intact one,
    /// and the framing error when a flag closes a malformed one.
    pub fn deliver(&mut self, octet: u8) -> (event: Option<SfpResult<SfpPacket>>)
        ensures
            final(self)@ == old(self)@.step(octet).0,
            match event {
                None => old(self)@.step(octet).1 is None,
                Some(Ok(packet)) => old(self)@.step(octet).1 == Some(
                    Ok::<Frame, SfpError>(packet@),
                ),
                Some(Err(error)) => old(self)@.step(octet).1 == Some(
                    Err::<Frame, SfpError>(error),
                ),
            },
    {
        if octet == SFP_FLAG {
            if self.state == FrameState::ReceivingBody {
                Some(self.process_frame())
            } else {
                self.reset();
                None
            }
        } else if octet == SFP_ESC {
            self.esc_state = EscState::Escaping;
            None
        } else {
            let mut byte = octet;
            if self.esc_state == EscState::Escaping {
                byte = octet ^ SFP_ESC_FLIP_BIT;
                self.esc_state = EscState::Normal;
            }
            self.crc_update(byte);
            if self.state == FrameState::AwaitingHeader {
                self.header = byte;
                self.state = FrameState::ReceivingBody;
            } else {
                self.buf.push(byte);
            }
            None
        }
    }

    /// The wire image of `msg`.  Never fails, and leaves the decoder
    /// untouched.
    pub fn encode(&mut self, msg: SfpPacket) -> (wire: SfpResult<Vec<u8>>)
        ensures
            final(self)@ == old(self)@,
            wire matches Ok(octets) && octets@ == encoded(msg@),
    {
        let ghost frame = msg@;
        let (kind, seq, payload) = match msg {
            SfpPacket::Usr { seq, buf } => (FRAMETYPE_USR, seq, buf),
            SfpPacket::Rtx { seq, buf } => (FRAMETYPE_RTX, seq, buf),
            SfpPacket::Nak { seq } => (FRAMETYPE_NAK, seq, Vec::new()),
            SfpPacket::Syn { seq } => (FRAMETYPE_SYN, seq, Vec::new()),
        };
        assert(payload@ =~= frame.payload());
        let header: u8 = (kind << 6) | seq;
        assert(header == frame.header());
        let mut crc: u16 = crc_update(SFP_CRC_INIT, header);
        let mut buf: Vec<u8> = Vec::new();
        buf.push(SFP_FLAG);
        push_escaped(&mut buf, header);
        proof {
            let first = seq![header];
            lemma_crc_of_single(SFP_CRC_INIT, header);
            lemma_stuffed_single(header);
            assert(first + payload@.take(0) =~= first);
        }
        let mut i: usize = 0;
        while i < payload.len()
            invariant
                0 <= i <= payload.len(),
                crc == crc_of(SFP_CRC_INIT, seq![header] + payload@.take(i as int)),
                buf@ == seq![SFP_FLAG] + stuffed(seq![header] + payload@.take(i as int)),
            decreases payload.len() - i,
        {
            let byte = payload[i];
            crc = crc_update(crc, byte);
            push_escaped(&mut buf, byte);
            proof {
                let done = seq![header] + payload@.take(i as int);
                let next = seq![header] + payload@.take(i + 1);
                assert(next.drop_last() =~= done);
                assert(next.last() == byte);
                assert(buf@ =~= seq![SFP_FLAG] + stuffed(next));
            }
            i += 1;
        }
        assert(payload@.take(i as int) =~= payload@);
        assert(seq![header] + payload@ == covered(frame));
        // The complement of the checksum follows, low octet first.
        assert((!crc) & 0x00ff <= 0xff && ((!crc) >> 8) & 0x00ff <= 0xff) by (bit_vector);
        let low: u8 = ((!crc) & 0x00ff) as u8;
        let high: u8 = (((!crc) >> 8) & 0x00ff) as u8;
        push_escaped(&mut buf, low);
        push_escaped(&mut buf, high);
        buf.push(SFP_FLAG);
        proof {
            let head = covered(frame);
            let tail = seq![low, high];
            assert(low == trailer_low(crc) && high == trailer_high(crc));
            assert(tail =~= seq![low] + seq![high]);
            lemma_stuffed_single(low);
            lemma_stuffed_single(high);
            lemma_stuffed_concat(seq![low], seq![high]);
            lemma_stuffed_concat(head, tail);
            assert(buf@ =~= encoded(frame));
        }
        Ok(buf)
    }

    /// Closes the frame being received: checks length and checksum and
    /// builds the frame from header and body.  A frame that fails either
    /// check is given up with a soft reset.
    fn process_frame(&mut self) -> (outcome: SfpResult<SfpPacket>)
        ensures
            final(self)@ == old(self)@.close().0,
            match outcome {
                Ok(packet) => old(self)@.close().1 == Ok::<Frame, SfpError>(packet@),
                Err(error) => old(self)@.close().1 == Err::<Frame, SfpError>(error),
            },
    {
        if self.buf.len() < 2 {
            self.soft_reset();
            Err(SfpError::DataTooShort)
        } else if self.crc != SFP_CRC_GOOD {
            self.soft_reset();
            Err(SfpError::CrcFailed)
        } else {
            let len = self.buf.len();
            let mut buf: Vec<u8> = Vec::new();
            core::mem::swap(&mut self.buf, &mut buf);
            buf.truncate(len - 2);
            assert(buf@ =~= old(self)@.body.take(len - 2));
            let kind = self.header >> 6;
            let seq = self.header & 0x3f;
            proof {
                lemma_header_parts(self.header);
            }
            let packet = if kind == FRAMETYPE_USR {
                SfpPacket::Usr { seq, buf }
            } else if kind == FRAMETYPE_RTX {
                SfpPacket::Rtx { seq, buf }
            } else if kind == FRAMETYPE_NAK {
                SfpPacket::Nak { seq }
            } else if kind == FRAMETYPE_SYN {
                SfpPacket::Syn { seq }
            } else {
                return Err(SfpError::UnknownHeader);
            };
            self.reset();
            Ok(packet)
        }
    }

    /// Forgets the frame being received but keeps the body octets
    /// gathered so far: header, checksum and escape state start afresh
    /// and a header is awaited.
    pub fn soft_reset(&mut self)
        ensures
            final(self)@ == old(self)@.soft_reset(),
    {
        self.header = 0;
        self.crc = SFP_CRC_INIT;
        self.state = FrameState::AwaitingHeader;
        self.esc_state = EscState::Normal;
    }

    /// Returns the decoder to the state of a new one.
    pub fn reset(&mut self)
        ensures
            final(self)@ == CodecState::initial(),
    {
        self.soft_reset();
        self.buf.clear();
    }

    /// Folds `byte` into the checksum of the frame being received.
    fn crc_update(&mut self, byte: u8)
        ensures
            final(self)@ == (CodecState { crc: crc_step(old(self)@.crc, byte), ..old(self)@ }),
    {
        self.crc = crc_update(self.crc, byte);
    }
}

} // verus!
